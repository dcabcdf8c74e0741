//! The errors in words.
use vstd::prelude::*;

use crate::chain::{KeysError, PointError};
use crate::config::{ArgsError, ArgsFault, ConfigError};
use crate::page;
use crate::rpc::{Fault, RpcError};
use crate::send::{SendError, SendFault, SignedError, SignedFault, MAX_QR_BYTES};
use crate::sync::{ScanError, ScanFault};
use crate::text::{self, push_decimal};

verus! {

/// A text behind another.
fn behind(head: &str, tail: &str) -> (r: String)
    ensures
        r@ == head@ + tail@,
{
    let mut out: String = head.to_owned();
    out.append(tail);
    out
}

/// A text within quotes, with what needs it escaped.
pub uninterp spec fn quoted(s: Seq<char>) -> Seq<char>;

/// `format!` with `{:?}` on a text: the text within quotes, escaped as
/// `str`'s `Debug` does it.
#[verifier::external_body]
fn quote(s: &str) -> (r: String)
    ensures
        r@ == quoted(s@),
{
    format!("{s:?}")
}

// ---------------------------------------------------------------------------
// Replies of the daemon
// ---------------------------------------------------------------------------

impl Fault {
    /// This error in words.
    pub open spec fn words(self) -> Seq<char> {
        match self {
            Fault::Refused { call, error } => "rpc "@ + call + " error: "@ + error.written(),
            Fault::NoResult { call } => "rpc "@ + call + ": no result"@,
            Fault::BadCount => "get_block_count: bad count"@,
            Fault::NoBlob => "get_block: no blob"@,
            Fault::BlobHex(e) => "blob hex: "@ + e.words(),
            Fault::BlockParse(m) => "block parse: "@ + m,
            Fault::NoTxs => "get_transactions: no txs"@,
            Fault::TxCount => "get_transactions: wrong number of txs"@,
            Fault::ForeignTx => "get_transactions: not the tx asked for"@,
            Fault::TxHex(e) => "tx hex: "@ + e.words(),
            Fault::PrunableHashHex(e) => "prunable_hash hex: "@ + e.words(),
            Fault::PrunableHashLength => "prunable_hash len"@,
            Fault::TxParse(m) => "tx parse: "@ + m,
            Fault::PrunedTransaction => "transaction was unexpectedly pruned"@,
            Fault::NoOutputIndexes => "get_o_indexes: no o_indexes"@,
            Fault::BadOutputIndex => "get_o_indexes: bad index"@,
            Fault::NoOuts => "get_outs: no outs"@,
            Fault::OutCount => "get_outs: wrong number of outs"@,
            Fault::NoKey => "get_outs: no key"@,
            Fault::NoMask => "get_outs: no mask"@,
            Fault::NoTxid => "get_outs: no txid"@,
            Fault::KeyHex(e) => "key hex: "@ + e.words(),
            Fault::MaskHex(e) => "mask hex: "@ + e.words(),
            Fault::TxidHex(e) => "txid hex: "@ + e.words(),
            Fault::Point(PointError::BadLength) => "bad point length"@,
            Fault::Point(PointError::InvalidPoint) => "invalid point"@,
            Fault::TxidLength => "bad txid len"@,
            Fault::BadDistribution => "get_output_distribution: bad response"@,
            Fault::BadDistributionValue => "distribution: bad value"@,
            Fault::NoHash => "no hash"@,
            Fault::HashHex(e) => "hash hex: "@ + e.words(),
            Fault::HashLength => "bad hash len"@,
            Fault::InvalidFee => "invalid fee"@,
            Fault::Rejected { status, reason } => "daemon refused: "@ + status_words(status)
                + " reason="@ + reason.written(),
            Fault::CountOverflow => "output count overflow"@,
        }
    }
}

/// A status that may be missing, in words.
pub open spec fn status_words(status: Option<Seq<char>>) -> Seq<char> {
    match status {
        Some(s) => "Some("@ + quoted(s) + ")"@,
        None => "None"@,
    }
}

impl RpcError {
    /// Puts this error in words.
    pub fn text(&self) -> (r: String)
        ensures
            r@ == self@.words(),
    {
        match self {
            RpcError::Refused { call, error } => {
                let mut out: String = behind("rpc ", call.as_str());
                out.append(" error: ");
                out.append(error.written().as_str());
                out
            },
            RpcError::NoResult { call } => {
                let mut out: String = behind("rpc ", call.as_str());
                out.append(": no result");
                out
            },
            RpcError::BadCount => "get_block_count: bad count".to_owned(),
            RpcError::NoBlob => "get_block: no blob".to_owned(),
            RpcError::BlobHex(e) => behind("blob hex: ", e.text().as_str()),
            RpcError::BlockParse(m) => behind("block parse: ", m.as_str()),
            RpcError::NoTxs => "get_transactions: no txs".to_owned(),
            RpcError::TxCount => "get_transactions: wrong number of txs".to_owned(),
            RpcError::ForeignTx => "get_transactions: not the tx asked for".to_owned(),
            RpcError::TxHex(e) => behind("tx hex: ", e.text().as_str()),
            RpcError::PrunableHashHex(e) => behind("prunable_hash hex: ", e.text().as_str()),
            RpcError::PrunableHashLength => "prunable_hash len".to_owned(),
            RpcError::TxParse(m) => behind("tx parse: ", m.as_str()),
            RpcError::PrunedTransaction => "transaction was unexpectedly pruned".to_owned(),
            RpcError::NoOutputIndexes => "get_o_indexes: no o_indexes".to_owned(),
            RpcError::BadOutputIndex => "get_o_indexes: bad index".to_owned(),
            RpcError::NoOuts => "get_outs: no outs".to_owned(),
            RpcError::OutCount => "get_outs: wrong number of outs".to_owned(),
            RpcError::NoKey => "get_outs: no key".to_owned(),
            RpcError::NoMask => "get_outs: no mask".to_owned(),
            RpcError::NoTxid => "get_outs: no txid".to_owned(),
            RpcError::KeyHex(e) => behind("key hex: ", e.text().as_str()),
            RpcError::MaskHex(e) => behind("mask hex: ", e.text().as_str()),
            RpcError::TxidHex(e) => behind("txid hex: ", e.text().as_str()),
            RpcError::Point(PointError::BadLength) => "bad point length".to_owned(),
            RpcError::Point(PointError::InvalidPoint) => "invalid point".to_owned(),
            RpcError::TxidLength => "bad txid len".to_owned(),
            RpcError::BadDistribution => "get_output_distribution: bad response".to_owned(),
            RpcError::BadDistributionValue => "distribution: bad value".to_owned(),
            RpcError::NoHash => "no hash".to_owned(),
            RpcError::HashHex(e) => behind("hash hex: ", e.text().as_str()),
            RpcError::HashLength => "bad hash len".to_owned(),
            RpcError::InvalidFee => "invalid fee".to_owned(),
            RpcError::Rejected { status, reason } => {
                let mut out: String = "daemon refused: ".to_owned();
                match status {
                    Some(s) => {
                        let ghost before = out@;
                        out.append("Some(");
                        out.append(quote(s.as_str()).as_str());
                        out.append(")");
                        assert(out@ =~= before + ("Some("@ + quoted(s@) + ")"@));
                    },
                    None => {
                        out.append("None");
                    },
                }
                out.append(" reason=");
                out.append(reason.written().as_str());
                out
            },
            RpcError::CountOverflow => "output count overflow".to_owned(),
        }
    }
}

impl Fault {
    /// Whether this error shows that the node is not one to be trusted, and not
    /// that something failed on the way.
    pub open spec fn blames_node(self) -> bool {
        match self {
            Fault::Point(PointError::InvalidPoint) => true,
            Fault::TxidLength => true,
            Fault::NoHash => true,
            Fault::HashHex(_) => true,
            Fault::HashLength => true,
            Fault::TxCount => true,
            Fault::ForeignTx => true,
            Fault::OutCount => true,
            _ => false,
        }
    }

    /// This error in words, with whom it blames.
    pub open spec fn blame_words(self) -> Seq<char> {
        if self.blames_node() {
            "invalid node ("@ + self.words() + ")"@
        } else {
            "internal error ("@ + self.words() + ")"@
        }
    }
}

/// What an error of the fee estimate says: that the fee is invalid, or what went
/// wrong with the interface.
pub open spec fn fee_words(f: Fault) -> Seq<char> {
    match f {
        Fault::InvalidFee => "invalid fee"@,
        _ => "interface error ("@ + f.blame_words() + ")"@,
    }
}

impl RpcError {
    /// Whether this error shows that the node is not one to be trusted.
    pub fn blames_node(&self) -> (r: bool)
        ensures
            r == self@.blames_node(),
    {
        match self {
            RpcError::Point(PointError::InvalidPoint) => true,
            RpcError::TxidLength => true,
            RpcError::NoHash => true,
            RpcError::HashHex(_) => true,
            RpcError::HashLength => true,
            RpcError::TxCount => true,
            RpcError::ForeignTx => true,
            RpcError::OutCount => true,
            _ => false,
        }
    }

    /// Puts this error in words, with whom it blames.
    pub fn blame_text(&self) -> (r: String)
        ensures
            r@ == self@.blame_words(),
    {
        let mut out: String = if self.blames_node() {
            "invalid node (".to_owned()
        } else {
            "internal error (".to_owned()
        };
        out.append(self.text().as_str());
        out.append(")");
        out
    }

    /// Puts this error of the fee estimate in words.
    pub fn fee_text(&self) -> (r: String)
        ensures
            r@ == fee_words(self@),
    {
        match self {
            RpcError::InvalidFee => "invalid fee".to_owned(),
            _ => {
                let mut out: String = behind("interface error (", self.blame_text().as_str());
                out.append(")");
                out
            },
        }
    }
}

// ---------------------------------------------------------------------------
// Starting
// ---------------------------------------------------------------------------

impl ConfigError {
    /// This error of a view key file in words.
    pub open spec fn words(self, path: Seq<char>) -> Seq<char> {
        match self {
            ConfigError::NoAddress => "no address= in "@ + path,
            ConfigError::NoViewKey => "no view_key= in "@ + path,
            ConfigError::ViewKeyHex(e) => "view_key hex: "@ + e.words(),
            ConfigError::ViewKeyLength => "view_key must be 32 bytes"@,
        }
    }

    /// Puts this error of a view key file in words.
    pub fn text(&self, path: &str) -> (r: String)
        ensures
            r@ == self.words(path@),
    {
        match self {
            ConfigError::NoAddress => behind("no address= in ", path),
            ConfigError::NoViewKey => behind("no view_key= in ", path),
            ConfigError::ViewKeyHex(e) => behind("view_key hex: ", e.text().as_str()),
            ConfigError::ViewKeyLength => "view_key must be 32 bytes".to_owned(),
        }
    }
}

impl ArgsFault {
    /// This error in words.
    pub open spec fn words(self) -> Seq<char> {
        match self {
            ArgsFault::Usage => "usage: xmxx-companion serve --view-key <file> --rpc <url> [--from <h>] [--port <p>]"@,
            ArgsFault::UnknownCommand(c) => "unknown command "@ + c,
            ArgsFault::UnknownFlag(f) => "unknown flag "@ + f,
            ArgsFault::NoViewKey => "--view-key required"@,
            ArgsFault::NoRpc => "--rpc required"@,
        }
    }
}

impl ArgsError {
    /// Puts this error in words.
    pub fn text(&self) -> (r: String)
        ensures
            r@ == self@.words(),
    {
        match self {
            ArgsError::Usage => "usage: xmxx-companion serve --view-key <file> --rpc <url> [--from <h>] [--port <p>]".to_owned(),
            ArgsError::UnknownCommand(c) => behind("unknown command ", c.as_str()),
            ArgsError::UnknownFlag(f) => behind("unknown flag ", f.as_str()),
            ArgsError::NoViewKey => "--view-key required".to_owned(),
            ArgsError::NoRpc => "--rpc required".to_owned(),
        }
    }
}

impl KeysError {
    /// This error in words.
    pub open spec fn words(self) -> Seq<char> {
        match self {
            KeysError::NotMainnetStandard => "address is not a mainnet standard address"@,
            KeysError::BadSpendKey => "bad spend pubkey in address"@,
            KeysError::TorsionedSpendKey => "view pair: TorsionedSpendKey"@,
        }
    }

    /// Puts this error in words.
    pub fn text(&self) -> (r: String)
        ensures
            r@ == self.words(),
    {
        match self {
            KeysError::NotMainnetStandard => "address is not a mainnet standard address".to_owned(),
            KeysError::BadSpendKey => "bad spend pubkey in address".to_owned(),
            KeysError::TorsionedSpendKey => "view pair: TorsionedSpendKey".to_owned(),
        }
    }
}

// ---------------------------------------------------------------------------
// Requests
// ---------------------------------------------------------------------------

impl ScanFault {
    /// This error in words.
    pub open spec fn words(self) -> Seq<char> {
        match self {
            ScanFault::Scanner(m) => "scanner: "@ + m,
            ScanFault::BlockCount => "scan: wrong number of blocks"@,
        }
    }
}

impl ScanError {
    /// Puts this error in words.
    pub fn text(&self) -> (r: String)
        ensures
            r@ == self@.words(),
    {
        match self {
            ScanError::Scanner(m) => behind("scanner: ", m.as_str()),
            ScanError::BlockCount => "scan: wrong number of blocks".to_owned(),
        }
    }
}

/// How many bytes are too many, for an envelope that does not fit in a QR code.
pub open spec fn exceeded(size: nat) -> nat {
    if size > MAX_QR_BYTES {
        MAX_QR_BYTES as nat
    } else {
        page::MAX_CODE_BYTES as nat
    }
}

impl SendFault {
    /// This error in words. An amount that it speaks of reads `amount`.
    pub open spec fn words(self, amount: Seq<char>) -> Seq<char> {
        match self {
            SendFault::ZeroAmount => "amount must be > 0 (piconeros)"@,
            SendFault::NoOutputs => "no spendable outputs yet — send some XMR to the address first"@,
            SendFault::BadAddress => "bad destination address"@,
            SendFault::DestinationParse(m) => "destination parse: "@ + m,
            SendFault::Fee(f) => "fee: "@ + fee_words(f),
            SendFault::InsufficientFunds { available } => "insufficient funds: "@ + amount
                + " XMR available"@,
            SendFault::RingCount => "build tx: wrong number of rings"@,
            SendFault::Ring(m) => "ring parse: "@ + m,
            SendFault::ForeignRing => "build tx: a ring is not of its input"@,
            SendFault::WantOfFunds { fee } => "insufficient funds: a fee of "@ + text::decimal(
                fee as nat,
            ) + " piconeros is needed"@,
            SendFault::Build(m) => "build tx: "@ + m,
            SendFault::TooBig { size } => "envelope too big for a single QR ("@ + text::decimal(
                size,
            ) + " bytes > "@ + text::decimal(exceeded(size))
                + "). Use fewer inputs or a larger QR-capable viewer."@,
        }
    }
}

impl SendError {
    /// Puts this error in words. `amount` is the text of the funds that are available,
    /// where they do not suffice.
    pub fn text(&self, amount: &str) -> (r: String)
        ensures
            r@ == self@.words(amount@),
    {
        match self {
            SendError::ZeroAmount => "amount must be > 0 (piconeros)".to_owned(),
            SendError::NoOutputs => "no spendable outputs yet — send some XMR to the address first".to_owned(),
            SendError::BadAddress => "bad destination address".to_owned(),
            SendError::DestinationParse(m) => behind("destination parse: ", m.as_str()),
            SendError::Fee(e) => behind("fee: ", e.fee_text().as_str()),
            SendError::InsufficientFunds { available: _ } => {
                let mut out: String = behind("insufficient funds: ", amount);
                out.append(" XMR available");
                out
            },
            SendError::RingCount => "build tx: wrong number of rings".to_owned(),
            SendError::Ring(m) => behind("ring parse: ", m.as_str()),
            SendError::ForeignRing => "build tx: a ring is not of its input".to_owned(),
            SendError::WantOfFunds { fee } => {
                let mut out: String = "insufficient funds: a fee of ".to_owned();
                push_decimal(&mut out, *fee);
                out.append(" piconeros is needed");
                out
            },
            SendError::Build(m) => behind("build tx: ", m.as_str()),
            SendError::TooBig { size } => {
                let limit: usize = if *size > MAX_QR_BYTES {
                    MAX_QR_BYTES
                } else {
                    page::MAX_CODE_BYTES
                };
                let mut out: String = "envelope too big for a single QR (".to_owned();
                push_decimal(&mut out, *size as u64);
                out.append(" bytes > ");
                push_decimal(&mut out, limit as u64);
                out.append("). Use fewer inputs or a larger QR-capable viewer.");
                out
            },
        }
    }
}

impl SignedFault {
    /// This error in words.
    pub open spec fn words(self) -> Seq<char> {
        match self {
            SignedFault::Hex(e) => "hex: "@ + e.words(),
            SignedFault::Parse(m) => "signed tx parse: "@ + m,
        }
    }
}

impl SignedError {
    /// Puts this error in words.
    pub fn text(&self) -> (r: String)
        ensures
            r@ == self@.words(),
    {
        match self {
            SignedError::Hex(e) => behind("hex: ", e.text().as_str()),
            SignedError::Parse(m) => behind("signed tx parse: ", m.as_str()),
        }
    }
}

} // verus!
