use xmxx_companion::bytes::{decode_hex, HexError};
use xmxx_companion::chain::{KeysError, PointError};
use xmxx_companion::config::{parse_args, parse_view_key_file, ArgsError, ConfigError};
use xmxx_companion::json::Json;
use xmxx_companion::rpc::{DaemonRpc, RpcError};
use xmxx_companion::send::{parse_signed, Payment, SendError, SignedError};
use xmxx_companion::sync::ScanError;

fn odd() -> HexError {
    HexError::OddLength
}

#[test]
fn hexadecimal_errors_in_words() {
    for text in ["0", "zz", "0é", "a\u{7f}", "0\n", "a'"] {
        let theirs = hex::decode(text).err().unwrap().to_string();
        assert_eq!(decode_hex(text).err().unwrap().text(), theirs);
    }
    assert_eq!(odd().text(), "Odd number of digits");
    assert_eq!(HexError::InvalidStringLength.text(), "Invalid string length");
}

#[test]
fn reply_errors_in_words() {
    let words = |e: RpcError| e.text();
    let refused = RpcError::Refused { call: "get_block".to_string(), error: Json::Null };
    assert_eq!(refused.text(), "rpc get_block error: null");
    assert_eq!(words(RpcError::NoResult { call: "m".to_string() }), "rpc m: no result");
    assert_eq!(words(RpcError::BadCount), "get_block_count: bad count");
    assert_eq!(words(RpcError::NoBlob), "get_block: no blob");
    assert_eq!(words(RpcError::BlobHex(odd())), "blob hex: Odd number of digits");
    assert_eq!(words(RpcError::BlockParse("why".to_string())), "block parse: why");
    assert_eq!(words(RpcError::NoTxs), "get_transactions: no txs");
    assert_eq!(words(RpcError::TxCount), "get_transactions: wrong number of txs");
    assert_eq!(words(RpcError::ForeignTx), "get_transactions: not the tx asked for");
    assert_eq!(words(RpcError::TxHex(odd())), "tx hex: Odd number of digits");
    assert_eq!(words(RpcError::PrunableHashHex(odd())), "prunable_hash hex: Odd number of digits");
    assert_eq!(words(RpcError::PrunableHashLength), "prunable_hash len");
    assert_eq!(words(RpcError::TxParse("why".to_string())), "tx parse: why");
    assert_eq!(words(RpcError::PrunedTransaction), "transaction was unexpectedly pruned");
    assert_eq!(words(RpcError::NoOutputIndexes), "get_o_indexes: no o_indexes");
    assert_eq!(words(RpcError::BadOutputIndex), "get_o_indexes: bad index");
    assert_eq!(words(RpcError::NoOuts), "get_outs: no outs");
    assert_eq!(words(RpcError::OutCount), "get_outs: wrong number of outs");
    assert_eq!(words(RpcError::NoKey), "get_outs: no key");
    assert_eq!(words(RpcError::NoMask), "get_outs: no mask");
    assert_eq!(words(RpcError::NoTxid), "get_outs: no txid");
    assert_eq!(words(RpcError::KeyHex(odd())), "key hex: Odd number of digits");
    assert_eq!(words(RpcError::MaskHex(odd())), "mask hex: Odd number of digits");
    assert_eq!(words(RpcError::TxidHex(odd())), "txid hex: Odd number of digits");
    assert_eq!(words(RpcError::Point(PointError::BadLength)), "bad point length");
    assert_eq!(words(RpcError::Point(PointError::InvalidPoint)), "invalid point");
    assert_eq!(words(RpcError::TxidLength), "bad txid len");
    assert_eq!(words(RpcError::BadDistribution), "get_output_distribution: bad response");
    assert_eq!(words(RpcError::BadDistributionValue), "distribution: bad value");
    assert_eq!(words(RpcError::NoHash), "no hash");
    assert_eq!(words(RpcError::HashHex(odd())), "hash hex: Odd number of digits");
    assert_eq!(words(RpcError::HashLength), "bad hash len");
    assert_eq!(words(RpcError::InvalidFee), "invalid fee");
    assert_eq!(words(RpcError::CountOverflow), "output count overflow");
}

#[test]
fn errors_blame_the_node_or_the_way_to_it() {
    for e in [
        RpcError::Point(PointError::InvalidPoint),
        RpcError::TxidLength,
        RpcError::NoHash,
        RpcError::HashHex(odd()),
        RpcError::HashLength,
        RpcError::TxCount,
        RpcError::ForeignTx,
        RpcError::OutCount,
    ] {
        assert!(e.blames_node());
        let theirs = monero_wallet::interface::InterfaceError::InvalidInterface(e.text());
        assert_eq!(e.blame_text(), theirs.to_string());
    }
    for e in [RpcError::Point(PointError::BadLength), RpcError::NoTxs, RpcError::CountOverflow] {
        assert!(!e.blames_node());
        let theirs = monero_wallet::interface::InterfaceError::InternalError(e.text());
        assert_eq!(e.blame_text(), theirs.to_string());
        let fee = monero_wallet::interface::FeeError::InterfaceError(theirs);
        assert_eq!(e.fee_text(), fee.to_string());
    }
    assert_eq!(
        RpcError::InvalidFee.fee_text(),
        monero_wallet::interface::FeeError::InvalidFee.to_string()
    );
}

#[test]
fn values_are_written_as_the_encoder_does() {
    for text in [
        "null",
        "true",
        "false",
        "0",
        "18446744073709551615",
        "[]",
        "{}",
        "[1]",
        "[1,null,[true,\"x\"]]",
        "{\"a\":1}",
        "{\"a\":{},\"b \\\"\\n\":[\"\\u0001é/\"],\"c\":-1.5}",
    ] {
        let value: serde_json::Value = serde_json::from_str(text).unwrap();
        assert_eq!(value.to_string(), text);
        assert_eq!(json_of(&value).written(), text);
    }
}

fn json_of(v: &serde_json::Value) -> Json {
    match v {
        serde_json::Value::Null => Json::Null,
        serde_json::Value::Bool(b) => Json::Bool(*b),
        serde_json::Value::Number(n) => match n.as_u64() {
            Some(n) => Json::Number(n),
            None => Json::OtherNumber(n.to_string()),
        },
        serde_json::Value::String(s) => Json::Str(s.clone()),
        serde_json::Value::Array(v) => Json::Array(v.iter().map(json_of).collect()),
        serde_json::Value::Object(m) => {
            Json::Object(m.iter().map(|(k, v)| (k.clone(), json_of(v))).collect())
        }
    }
}

#[test]
fn a_rejection_in_words() {
    let rejected = |status: Option<&str>| RpcError::Rejected {
        status: status.map(|s| s.to_string()),
        reason: Json::Str("double spend".to_string()),
    };
    for status in [None, Some("Failed"), Some("a \"quote\"\n\u{200b}é")] {
        let e = rejected(status);
        assert_eq!(
            e.text(),
            format!("daemon refused: {status:?} reason=\"double spend\"")
        );
    }
    let reply = Json::Object(vec![("status".to_string(), Json::Str("Failed".to_string()))]);
    let e = DaemonRpc::publish_transaction(&reply).err().unwrap();
    assert_eq!(e.text(), "daemon refused: Some(\"Failed\") reason=null");
}

#[test]
fn errors_at_the_start_in_words() {
    let config = |content: &str| parse_view_key_file(content).err().unwrap().text("keys.txt");
    assert_eq!(config(""), "no address= in keys.txt");
    assert_eq!(config("address=4"), "no view_key= in keys.txt");
    assert_eq!(config("address=4\nview_key=0"), "view_key hex: Odd number of digits");
    assert_eq!(config("address=4\nview_key=00"), "view_key must be 32 bytes");
    assert_eq!(ConfigError::NoAddress.text("f"), "no address= in f");
    assert_eq!(
        parse_args(&vec![]).err().unwrap().text(),
        "usage: xmxx-companion serve --view-key <file> --rpc <url> [--from <h>] [--port <p>]"
    );
    assert_eq!(ArgsError::UnknownCommand("c".to_string()).text(), "unknown command c");
    assert_eq!(ArgsError::UnknownFlag("-f".to_string()).text(), "unknown flag -f");
    assert_eq!(ArgsError::NoViewKey.text(), "--view-key required");
    assert_eq!(ArgsError::NoRpc.text(), "--rpc required");
    assert_eq!(KeysError::NotMainnetStandard.text(), "address is not a mainnet standard address");
    assert_eq!(KeysError::BadSpendKey.text(), "bad spend pubkey in address");
    assert_eq!(KeysError::TorsionedSpendKey.text(), "view pair: TorsionedSpendKey");
}

#[test]
fn scan_errors_in_words() {
    assert_eq!(ScanError::Scanner("why".to_string()).text(), "scanner: why");
    assert_eq!(ScanError::BlockCount.text(), "scan: wrong number of blocks");
}

#[test]
fn payment_errors_in_words() {
    let words = |e: SendError| e.text("0.000000000020");
    assert_eq!(words(Payment::new("x", 0).err().unwrap()), "amount must be > 0 (piconeros)");
    assert_eq!(
        words(SendError::NoOutputs),
        "no spendable outputs yet — send some XMR to the address first"
    );
    assert_eq!(words(SendError::BadAddress), "bad destination address");
    assert_eq!(words(SendError::DestinationParse("why".to_string())), "destination parse: why");
    assert_eq!(words(SendError::Fee(RpcError::InvalidFee)), "fee: invalid fee");
    let refused = SendError::Fee(RpcError::Refused { call: "m".to_string(), error: Json::Null });
    assert_eq!(words(refused), "fee: interface error (internal error (rpc m error: null))");
    let lacking = SendError::Fee(RpcError::NoResult { call: "get_fee_estimate".to_string() });
    assert_eq!(
        words(lacking),
        "fee: interface error (internal error (rpc get_fee_estimate: no result))"
    );
    assert_eq!(
        words(SendError::InsufficientFunds { available: 20 }),
        "insufficient funds: 0.000000000020 XMR available"
    );
    assert_eq!(words(SendError::RingCount), "build tx: wrong number of rings");
    assert_eq!(words(SendError::Ring("why".to_string())), "ring parse: why");
    assert_eq!(words(SendError::ForeignRing), "build tx: a ring is not of its input");
    assert_eq!(
        words(SendError::WantOfFunds { fee: 30720000 }),
        "insufficient funds: a fee of 30720000 piconeros is needed"
    );
    assert_eq!(words(SendError::Build("why".to_string())), "build tx: why");
    assert_eq!(
        words(SendError::TooBig { size: 2954 }),
        "envelope too big for a single QR (2954 bytes > 2953). Use fewer inputs or a larger QR-capable viewer."
    );
    assert_eq!(
        words(SendError::TooBig { size: 1664 }),
        "envelope too big for a single QR (1664 bytes > 1663). Use fewer inputs or a larger QR-capable viewer."
    );
}

#[test]
fn signed_errors_in_words() {
    assert_eq!(parse_signed("xmr-txsigned:0").err().unwrap().text(), "hex: Odd number of digits");
    assert_eq!(SignedError::Parse("why".to_string()).text(), "signed tx parse: why");
    let read = monero_oxide::transaction::Transaction::<monero_oxide::transaction::NotPruned>::read(
        &mut [9u8].as_slice(),
    );
    assert_eq!(
        parse_signed("xmr-txsigned:09").err().unwrap().text(),
        format!("signed tx parse: {}", read.err().unwrap())
    );
}
