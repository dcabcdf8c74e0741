//! Blocks, transactions and keys of the chain: what the wallet reads of them.
use curve25519_dalek::edwards::CompressedEdwardsY;
use curve25519_dalek::Scalar as DalekScalar;
use monero_oxide::block::Block;
use monero_oxide::ed25519::{CompressedPoint, Point, Scalar};
use monero_oxide::transaction::{Pruned, Transaction};
use monero_wallet::extra::Extra;
use monero_wallet::interface::ScannableBlock as OxideScannableBlock;
use monero_wallet::{Scanner, ViewPair, WalletOutput};
use vstd::prelude::*;
use zeroize::Zeroizing;

use crate::bytes::{self, bytes_32};

verus! {

// ---------------------------------------------------------------------------
// Blocks and transactions
// ---------------------------------------------------------------------------

/// A block: its serialized form, its number, its miner transaction's version,
/// number of outputs, hash and extra field, and the hashes of its other
/// transactions in order. It is read from the serialized form, and says what that
/// says.
pub struct BlockInfo {
    blob: Vec<u8>,
    number: usize,
    miner_version: u8,
    miner_outputs: usize,
    miner_hash: [u8; 32],
    miner_extra: Vec<u8>,
    transactions: Vec<[u8; 32]>,
}

/// What a block says.
pub struct BlockView {
    pub blob: Seq<u8>,
    pub number: usize,
    pub miner_version: u8,
    pub miner_outputs: usize,
    pub miner_hash: Seq<u8>,
    pub miner_extra: Seq<u8>,
    pub transactions: Seq<Seq<u8>>,
}

impl View for BlockInfo {
    type V = BlockView;

    closed spec fn view(&self) -> BlockView {
        BlockView {
            blob: self.blob@,
            number: self.number,
            miner_version: self.miner_version,
            miner_outputs: self.miner_outputs,
            miner_hash: self.miner_hash@,
            miner_extra: self.miner_extra@,
            transactions: bytes::keys(self.transactions@),
        }
    }
}

/// The number, the version, number of outputs, hash and extra field of the miner
/// transaction, and the transaction hashes of the block that some bytes start
/// with, or what is said where they start with no block.
pub uninterp spec fn block_read(blob: Seq<u8>) -> Result<
    (usize, (u8, usize, Seq<u8>, Seq<u8>), Seq<Seq<u8>>),
    Seq<char>,
>;

/// `monero_oxide::block::Block::read` on the bytes, then the block's number, what
/// its miner transaction tells of itself, and its list of transaction hashes; or
/// the message of the error.
#[verifier::external_body]
fn read_block_fields(blob: &[u8]) -> (r: Result<
    (usize, (u8, usize, [u8; 32], Vec<u8>), Vec<[u8; 32]>),
    String,
>)
    ensures
        match r {
            Ok(p) => block_read(blob@) == Ok::<
                (usize, (u8, usize, Seq<u8>, Seq<u8>), Seq<Seq<u8>>),
                Seq<char>,
            >((p.0, (p.1.0, p.1.1, p.1.2@, p.1.3@), bytes::keys(p.2@))),
            Err(e) => block_read(blob@) == Err::<
                (usize, (u8, usize, Seq<u8>, Seq<u8>), Seq<Seq<u8>>),
                Seq<char>,
            >(e@),
        },
{
    let block = Block::read(&mut &*blob).map_err(|e| e.to_string())?;
    let miner = block.miner_transaction();
    let (outputs, extra) = (miner.prefix().outputs.len(), miner.prefix().extra.clone());
    let fields = (miner.version(), outputs, miner.hash(), extra);
    Ok((block.number(), fields, block.transactions))
}

/// The block that a serialized form stands for, or what is said where it stands for none.
pub open spec fn block_of(blob: Seq<u8>) -> Result<BlockView, Seq<char>> {
    match block_read(blob) {
        Ok((number, miner, transactions)) => Ok(
            BlockView {
                blob,
                number,
                miner_version: miner.0,
                miner_outputs: miner.1,
                miner_hash: miner.2,
                miner_extra: miner.3,
                transactions,
            },
        ),
        Err(e) => Err(e),
    }
}

impl BlockInfo {
    #[verifier::type_invariant]
    closed spec fn says_its_blob(self) -> bool {
        block_of(self.blob@) == Ok::<BlockView, Seq<char>>(self@)
    }

    /// The serialized form, which stands for this block.
    pub fn blob(&self) -> (r: &Vec<u8>)
        ensures
            r@ == self@.blob,
            block_of(self@.blob) == Ok::<BlockView, Seq<char>>(self@),
    {
        proof {
            use_type_invariant(self);
        }
        &self.blob
    }

    /// The block's number.
    pub fn number(&self) -> (r: usize)
        ensures
            r == self@.number,
    {
        self.number
    }

    /// The version of the miner transaction.
    pub fn miner_version(&self) -> (r: u8)
        ensures
            r == self@.miner_version,
    {
        self.miner_version
    }

    /// How many outputs the miner transaction has.
    pub fn miner_outputs(&self) -> (r: usize)
        ensures
            r == self@.miner_outputs,
    {
        self.miner_outputs
    }

    /// The hash of the miner transaction.
    pub fn miner_hash(&self) -> (r: [u8; 32])
        ensures
            r@ == self@.miner_hash,
    {
        self.miner_hash
    }

    /// The extra field of the miner transaction.
    pub fn miner_extra(&self) -> (r: &Vec<u8>)
        ensures
            r@ == self@.miner_extra,
    {
        &self.miner_extra
    }

    /// The hashes of the transactions but for the miner's.
    pub fn transactions(&self) -> (r: &Vec<[u8; 32]>)
        ensures
            bytes::keys(r@) == self@.transactions,
    {
        &self.transactions
    }
}

/// Reads a block.
pub fn read_block(blob: Vec<u8>) -> (r: Result<BlockInfo, String>)
    ensures
        match r {
            Ok(block) => block_of(blob@) == Ok::<BlockView, Seq<char>>(block@),
            Err(e) => block_of(blob@) == Err::<BlockView, Seq<char>>(e@),
        },
{
    match read_block_fields(blob.as_slice()) {
        Ok((number, miner, transactions)) => {
            let (miner_version, miner_outputs, miner_hash, miner_extra): (
                u8,
                usize,
                [u8; 32],
                Vec<u8>,
            ) = miner;
            Ok(
                BlockInfo {
                    blob,
                    number,
                    miner_version,
                    miner_outputs,
                    miner_hash,
                    miner_extra,
                    transactions,
                },
            )
        },
        Err(e) => Err(e),
    }
}

/// A pruned transaction: its serialized form, its version, how many outputs it
/// has, and its extra field. It is read from the serialized form, and says what
/// that says.
pub struct PrunedTx {
    blob: Vec<u8>,
    version: u8,
    outputs: usize,
    extra: Vec<u8>,
}

/// What a pruned transaction says.
pub struct PrunedTxView {
    pub blob: Seq<u8>,
    pub version: u8,
    pub outputs: usize,
    pub extra: Seq<u8>,
}

impl View for PrunedTx {
    type V = PrunedTxView;

    closed spec fn view(&self) -> PrunedTxView {
        PrunedTxView {
            blob: self.blob@,
            version: self.version,
            outputs: self.outputs,
            extra: self.extra@,
        }
    }
}

/// The version, the number of outputs and the extra field of the pruned
/// transaction that some bytes start with, or what is said where they start with none.
pub uninterp spec fn pruned_read(blob: Seq<u8>) -> Result<(u8, usize, Seq<u8>), Seq<char>>;

/// `monero_oxide::transaction::Transaction::<Pruned>::read` on the bytes, then the
/// version and what the prefix holds, or the message of the error. Only versions
/// one and two are read.
#[verifier::external_body]
fn read_pruned_fields(blob: &[u8]) -> (r: Result<(u8, usize, Vec<u8>), String>)
    ensures
        match r {
            Ok(p) => pruned_read(blob@) == Ok::<(u8, usize, Seq<u8>), Seq<char>>(
                (p.0, p.1, p.2@),
            ) && (p.0 == 1 || p.0 == 2),
            Err(e) => pruned_read(blob@) == Err::<(u8, usize, Seq<u8>), Seq<char>>(e@),
        },
{
    let tx = Transaction::<Pruned>::read(&mut &*blob).map_err(|e| e.to_string())?;
    Ok((tx.version(), tx.prefix().outputs.len(), tx.prefix().extra.clone()))
}

/// The pruned transaction that a serialized form stands for, or what is said
/// where it stands for none.
pub open spec fn pruned_tx_of(blob: Seq<u8>) -> Result<PrunedTxView, Seq<char>> {
    match pruned_read(blob) {
        Ok(p) => Ok(PrunedTxView { blob, version: p.0, outputs: p.1, extra: p.2 }),
        Err(e) => Err(e),
    }
}

impl PrunedTx {
    #[verifier::type_invariant]
    closed spec fn says_its_blob(self) -> bool {
        &&& pruned_tx_of(self.blob@) == Ok::<PrunedTxView, Seq<char>>(self@)
        &&& self.version == 1 || self.version == 2
    }

    /// The serialized form, which stands for this transaction.
    pub fn blob(&self) -> (r: &Vec<u8>)
        ensures
            r@ == self@.blob,
            pruned_tx_of(self@.blob) == Ok::<PrunedTxView, Seq<char>>(self@),
    {
        proof {
            use_type_invariant(self);
        }
        &self.blob
    }

    /// The version.
    pub fn version(&self) -> (r: u8)
        ensures
            r == self@.version,
            r == 1 || r == 2,
    {
        proof {
            use_type_invariant(self);
        }
        self.version
    }

    /// How many outputs there are.
    pub fn outputs(&self) -> (r: usize)
        ensures
            r == self@.outputs,
    {
        self.outputs
    }

    /// The extra field.
    pub fn extra(&self) -> (r: &Vec<u8>)
        ensures
            r@ == self@.extra,
    {
        &self.extra
    }
}

/// Reads a pruned transaction.
pub fn read_pruned_tx(blob: Vec<u8>) -> (r: Result<PrunedTx, String>)
    ensures
        match r {
            Ok(tx) => pruned_tx_of(blob@) == Ok::<PrunedTxView, Seq<char>>(tx@),
            Err(e) => pruned_tx_of(blob@) == Err::<PrunedTxView, Seq<char>>(e@),
        },
{
    match read_pruned_fields(blob.as_slice()) {
        Ok(p) => {
            let (version, outputs, extra): (u8, usize, Vec<u8>) = p;
            Ok(PrunedTx { blob, version, outputs, extra })
        },
        Err(e) => Err(e),
    }
}

/// A full transaction: its hash and its serialized form.
pub struct FullTx {
    pub hash: [u8; 32],
    pub blob: Vec<u8>,
}

/// What a full transaction says.
pub struct FullTxView {
    pub hash: Seq<u8>,
    pub blob: Seq<u8>,
}

impl View for FullTx {
    type V = FullTxView;

    open spec fn view(&self) -> FullTxView {
        FullTxView { hash: self.hash@, blob: self.blob@ }
    }
}

/// The hash and the serialized form of the full transaction that some bytes
/// start with, or what is said where they start with none.
pub uninterp spec fn transaction_read(bytes: Seq<u8>) -> Result<(Seq<u8>, Seq<u8>), Seq<char>>;

/// `monero_oxide::transaction::Transaction::read` on the bytes, then the
/// transaction's hash and its serialization, or the message of the error.
#[verifier::external_body]
fn read_transaction_fields(bytes: &[u8]) -> (r: Result<([u8; 32], Vec<u8>), String>)
    ensures
        match r {
            Ok(p) => transaction_read(bytes@) == Ok::<(Seq<u8>, Seq<u8>), Seq<char>>(
                (p.0@, p.1@),
            ),
            Err(e) => transaction_read(bytes@) == Err::<(Seq<u8>, Seq<u8>), Seq<char>>(e@),
        },
{
    let tx = Transaction::read(&mut &*bytes).map_err(|e| e.to_string())?;
    Ok((tx.hash(), tx.serialize()))
}

/// The full transaction that some bytes start with, or what is said where they
/// start with none.
pub open spec fn full_tx_of(bytes: Seq<u8>) -> Result<FullTxView, Seq<char>> {
    match transaction_read(bytes) {
        Ok(p) => Ok(FullTxView { hash: p.0, blob: p.1 }),
        Err(e) => Err(e),
    }
}

/// Reads a full transaction.
pub fn read_full_tx(bytes: &[u8]) -> (r: Result<FullTx, String>)
    ensures
        match r {
            Ok(tx) => full_tx_of(bytes@) == Ok::<FullTxView, Seq<char>>(tx@),
            Err(e) => full_tx_of(bytes@) == Err::<FullTxView, Seq<char>>(e@),
        },
{
    match read_transaction_fields(bytes) {
        Ok(p) => Ok(FullTx { hash: p.0, blob: p.1 }),
        Err(e) => Err(e),
    }
}

/// The hash of the transaction of version two that some bytes start with in its
/// pruned form, given the hash of what was pruned.
pub uninterp spec fn pruned_hash(bytes: Seq<u8>, prunable: Seq<u8>) -> Option<Seq<u8>>;

/// `monero_oxide::transaction::Transaction::<Pruned>::read` on the bytes, then
/// `hash_with_prunable_hash`; `None` where the one does not read a transaction or
/// the other gives no hash.
#[verifier::external_body]
fn hash_with_prunable(bytes: &[u8], prunable: [u8; 32]) -> (r: Option<[u8; 32]>)
    ensures
        match r {
            Some(h) => pruned_hash(bytes@, prunable@) == Some(h@),
            None => pruned_hash(bytes@, prunable@) is None,
        },
{
    Transaction::<Pruned>::read(&mut &*bytes).ok()?.hash_with_prunable_hash(prunable)
}

/// The hash of the transaction that some bytes start with, as far as they tell it:
/// those of a full transaction do, and those of a pruned one with the hash of what
/// was pruned.
pub open spec fn told_hash(bytes: Seq<u8>, prunable: Option<Seq<u8>>) -> Option<Seq<u8>> {
    match (full_tx_of(bytes), prunable) {
        (Ok(tx), _) => Some(tx.hash),
        (Err(_), Some(p)) => pruned_hash(bytes, p),
        (Err(_), None) => None,
    }
}

/// Computes the hash of a transaction, as far as its bytes tell it.
pub fn hash_told(bytes: &[u8], prunable: Option<[u8; 32]>) -> (r: Option<[u8; 32]>)
    ensures
        ({
            let told = told_hash(
                bytes@,
                match prunable {
                    Some(p) => Some(p@),
                    None => None,
                },
            );
            match r {
                Some(h) => told == Some(h@),
                None => told is None,
            }
        }),
{
    match read_full_tx(bytes) {
        Ok(tx) => Some(tx.hash),
        Err(_) => match prunable {
            Some(p) => hash_with_prunable(bytes, p),
            None => None,
        },
    }
}

// ---------------------------------------------------------------------------
// Keys in a transaction's extra field
// ---------------------------------------------------------------------------

/// The transaction keys that an extra field names, in order, or `None` where it
/// names none.
pub uninterp spec fn extra_keys(extra: Seq<u8>) -> Option<Seq<Seq<u8>>>;

/// `monero_wallet::extra::Extra::read` on the bytes, then `Extra::keys`, each key
/// compressed; the additional keys are left aside. Where there is an answer it
/// holds at least one key.
#[verifier::external_body]
fn read_extra_keys(extra: &[u8]) -> (r: Option<Vec<[u8; 32]>>)
    ensures
        match r {
            Some(v) => extra_keys(extra@) == Some(bytes::keys(v@)) && v.len() > 0,
            None => extra_keys(extra@) is None,
        },
{
    let fields = Extra::read(&mut &*extra).ok()?;
    let (found, _additional) = fields.keys()?;
    Some(found.into_iter().map(|k| k.compress().to_bytes()).collect())
}

/// The first key of a list, where there is one.
pub open spec fn first_of(list: Option<Seq<Seq<u8>>>) -> Option<Seq<u8>> {
    match list {
        Some(v) => if v.len() > 0 {
            Some(v[0])
        } else {
            None
        },
        None => None,
    }
}

/// The first key of a list, where there is one.
pub fn first_key(list: &Option<Vec<[u8; 32]>>) -> (r: Option<[u8; 32]>)
    ensures
        match r {
            Some(k) => list is Some && first_of(Some(bytes::keys(list->0@))) == Some(k@),
            None => list is None || list->0@.len() == 0,
        },
{
    match list {
        Some(v) => {
            if v.len() > 0 {
                assert(bytes::keys(v@)[0] == v@[0]@);
                Some(v[0])
            } else {
                None
            }
        },
        None => None,
    }
}

/// The public key of a transaction: the first key of its extra field.
pub open spec fn tx_key(extra: Seq<u8>) -> Option<Seq<u8>> {
    first_of(extra_keys(extra))
}

/// Finds the public key of a transaction with an extra field.
pub fn extra_key(extra: &[u8]) -> (r: Option<[u8; 32]>)
    ensures
        match r {
            Some(k) => tx_key(extra@) == Some(k@),
            None => tx_key(extra@) is None,
        },
{
    let list: Option<Vec<[u8; 32]>> = read_extra_keys(extra);
    first_key(&list)
}

/// Parses the transaction public key (the first extra key) out of a pruned transaction.
pub fn tx_public_key(tx: &PrunedTx) -> (r: Option<[u8; 32]>)
    ensures
        match r {
            Some(k) => tx_key(tx@.extra) == Some(k@),
            None => tx_key(tx@.extra) is None,
        },
{
    extra_key(tx.extra().as_slice())
}

// ---------------------------------------------------------------------------
// Points
// ---------------------------------------------------------------------------

/// Whether 32 bytes are the canonical encoding of a point of the curve.
pub uninterp spec fn canonical_point(bytes: Seq<u8>) -> bool;

/// `monero_oxide::ed25519::CompressedPoint::decompress`, and the point compressed
/// again. Only canonical encodings are decompressed, so that the bytes come back.
#[verifier::external_body]
fn decompress_point(bytes: [u8; 32]) -> (r: Option<[u8; 32]>)
    ensures
        r is Some <==> canonical_point(bytes@),
        r matches Some(p) ==> p@ == bytes@,
{
    CompressedPoint::from(bytes).decompress().map(|p| p.compress().to_bytes())
}

/// Why some bytes are no point.
#[derive(Clone, Copy, Debug, PartialEq, Eq, Structural)]
pub enum PointError {
    /// There are not 32 of them.
    BadLength,
    /// They are not the canonical encoding of a point.
    InvalidPoint,
}

/// The encoding of the point that some bytes stand for.
pub open spec fn point_of(bytes: Seq<u8>) -> Result<Seq<u8>, PointError> {
    if bytes.len() != 32 {
        Err(PointError::BadLength)
    } else if !canonical_point(bytes) {
        Err(PointError::InvalidPoint)
    } else {
        Ok(bytes)
    }
}

/// Reads a point from its encoding.
pub fn point_from_32(bytes: &[u8]) -> (r: Result<[u8; 32], PointError>)
    ensures
        match r {
            Ok(p) => point_of(bytes@) == Ok::<Seq<u8>, PointError>(p@),
            Err(e) => point_of(bytes@) == Err::<Seq<u8>, PointError>(e),
        },
{
    match bytes_32(bytes) {
        None => Err(PointError::BadLength),
        Some(b) => match decompress_point(b) {
            Some(p) => Ok(p),
            None => Err(PointError::InvalidPoint),
        },
    }
}

// ---------------------------------------------------------------------------
// The view pair
// ---------------------------------------------------------------------------

/// Whether 32 bytes decompress to a point of the curve, canonical or not.
pub uninterp spec fn edwards_point(bytes: Seq<u8>) -> bool;

/// `curve25519_dalek::edwards::CompressedEdwardsY::decompress`: whether it finds a point.
#[verifier::external_body]
fn decompresses(bytes: [u8; 32]) -> (r: bool)
    ensures
        r == edwards_point(bytes@),
{
    CompressedEdwardsY(bytes).decompress().is_some()
}

/// Whether a public spend key, which decompresses, and a private view key make a view pair.
pub uninterp spec fn view_pair_accepted(spend: Seq<u8>, view: Seq<u8>) -> bool;

/// `monero_wallet::ViewPair::new` on the decompressed spend key and the view key
/// reduced to a scalar: whether it accepts the pair. It refuses spend keys
/// outside the prime-order subgroup; a spend key that does not decompress makes
/// no pair.
#[verifier::external_body]
fn accepts_view_pair(spend: [u8; 32], view: [u8; 32]) -> (r: bool)
    ensures
        r == view_pair_accepted(spend@, view@),
        r ==> edwards_point(spend@),
{
    let scalar = Scalar::from(DalekScalar::from_bytes_mod_order(view));
    match CompressedEdwardsY(spend).decompress() {
        Some(point) => ViewPair::new(Point::from(point), Zeroizing::new(scalar)).is_ok(),
        None => false,
    }
}

/// The keys that the wallet watches with: the public spend key and the private
/// view key, which make a view pair. The spend key itself never leaves the device.
pub struct ViewKeys {
    spend: [u8; 32],
    view: [u8; 32],
}

/// What view keys say.
pub struct KeysView {
    pub spend: Seq<u8>,
    pub view: Seq<u8>,
}

impl View for ViewKeys {
    type V = KeysView;

    closed spec fn view(&self) -> KeysView {
        KeysView { spend: self.spend@, view: self.view@ }
    }
}

impl ViewKeys {
    #[verifier::type_invariant]
    closed spec fn makes_a_pair(self) -> bool {
        edwards_point(self.spend@) && view_pair_accepted(self.spend@, self.view@)
    }

    /// The public spend key.
    pub fn spend_key(&self) -> (r: [u8; 32])
        ensures
            r@ == self@.spend,
            edwards_point(r@),
            view_pair_accepted(self@.spend, self@.view),
    {
        proof {
            use_type_invariant(self);
        }
        self.spend
    }

    /// The private view key.
    pub fn view_key(&self) -> (r: [u8; 32])
        ensures
            r@ == self@.view,
    {
        self.view
    }
}

/// Why an address and a view key make no view keys.
#[derive(Clone, Copy, Debug, PartialEq, Eq, Structural)]
pub enum KeysError {
    /// The address is not a mainnet standard address.
    NotMainnetStandard,
    /// The spend key in the address is no point.
    BadSpendKey,
    /// The spend key is outside the prime-order subgroup.
    TorsionedSpendKey,
}

/// The public spend key in a decoded mainnet standard address: network byte
/// 0x12, spend key, view key, checksum.
pub open spec fn address_spend_key(raw: Seq<u8>) -> Option<Seq<u8>> {
    if raw.len() == 69 && raw[0] == 0x12 {
        Some(raw.subrange(1, 33))
    } else {
        None
    }
}

/// Takes the public spend key out of a decoded address.
pub fn spend_key_of_address(raw: &[u8]) -> (r: Option<[u8; 32]>)
    ensures
        match r {
            Some(k) => address_spend_key(raw@) == Some(k@),
            None => address_spend_key(raw@) is None,
        },
{
    if raw.len() != 69 || raw[0] != 0x12 {
        return None;
    }
    bytes_32(vstd::slice::slice_subrange(raw, 1, 33))
}

/// The spend key that a decoded address and a view key watch with, or why they do not.
pub open spec fn view_keys_of(raw: Seq<u8>, view: Seq<u8>) -> Result<Seq<u8>, KeysError> {
    match address_spend_key(raw) {
        None => Err(KeysError::NotMainnetStandard),
        Some(spend) => if !edwards_point(spend) {
            Err(KeysError::BadSpendKey)
        } else if !view_pair_accepted(spend, view) {
            Err(KeysError::TorsionedSpendKey)
        } else {
            Ok(spend)
        },
    }
}

/// Makes the view keys of a decoded address and the view key that was exported with it.
pub fn view_keys(raw: &[u8], view: [u8; 32]) -> (r: Result<ViewKeys, KeysError>)
    ensures
        match r {
            Ok(k) => view_keys_of(raw@, view@) == Ok::<Seq<u8>, KeysError>(k@.spend) && k@.view
                == view@,
            Err(e) => view_keys_of(raw@, view@) == Err::<Seq<u8>, KeysError>(e),
        },
{
    match spend_key_of_address(raw) {
        None => Err(KeysError::NotMainnetStandard),
        Some(spend) => {
            if !decompresses(spend) {
                Err(KeysError::BadSpendKey)
            } else if !accepts_view_pair(spend, view) {
                Err(KeysError::TorsionedSpendKey)
            } else {
                Ok(ViewKeys { spend, view })
            }
        },
    }
}

// ---------------------------------------------------------------------------
// Scanning
// ---------------------------------------------------------------------------

/// An output that scanning found.
pub struct FoundOutput {
    /// The hash of the transaction that made it.
    pub transaction: [u8; 32],
    /// Its index within that transaction.
    pub index_in_tx: u64,
    /// Its index among the chain's RingCT outputs.
    pub index_on_chain: u64,
    /// Its one-time key.
    pub key: [u8; 32],
    /// Its amount in piconeros.
    pub amount: u64,
    /// Its serialized form.
    pub wallet_output: Vec<u8>,
}

/// What an output that scanning found says.
pub struct FoundView {
    pub transaction: Seq<u8>,
    pub index_in_tx: u64,
    pub index_on_chain: u64,
    pub key: Seq<u8>,
    pub amount: u64,
    pub wallet_output: Seq<u8>,
}

impl View for FoundOutput {
    type V = FoundView;

    open spec fn view(&self) -> FoundView {
        FoundView {
            transaction: self.transaction@,
            index_in_tx: self.index_in_tx,
            index_on_chain: self.index_on_chain,
            key: self.key@,
            amount: self.amount,
            wallet_output: self.wallet_output@,
        }
    }
}

/// The transaction hash, the index within the transaction, the key and the amount
/// of the wallet output that some bytes start with, or `None` where they start
/// with none.
pub uninterp spec fn wallet_output_read(bytes: Seq<u8>) -> Option<(Seq<u8>, u64, Seq<u8>, u64)>;

/// `monero_wallet::WalletOutput::read` on the bytes, then what the output tells of itself.
#[verifier::external_body]
fn read_output_fields(bytes: &[u8]) -> (r: Option<([u8; 32], u64, [u8; 32], u64)>)
    ensures
        match r {
            Some(p) => wallet_output_read(bytes@) == Some((p.0@, p.1, p.2@, p.3)),
            None => wallet_output_read(bytes@) is None,
        },
{
    let o = WalletOutput::read(&mut &*bytes).ok()?;
    let key = o.key().compress().to_bytes();
    Some((o.transaction(), o.index_in_transaction(), key, o.commitment().amount))
}

/// The output at a place on the chain that a serialized form stands for.
pub open spec fn found_at(place: u64, bytes: Seq<u8>) -> FoundView {
    let fields = wallet_output_read(bytes)->0;
    FoundView {
        transaction: fields.0,
        index_in_tx: fields.1,
        index_on_chain: place,
        key: fields.2,
        amount: fields.3,
        wallet_output: bytes,
    }
}

/// Reads an output that scanning found at a place from its serialized form.
pub fn read_found_output(place: u64, bytes: Vec<u8>) -> (r: Option<FoundOutput>)
    ensures
        match r {
            Some(o) => wallet_output_read(bytes@) is Some && o@ == found_at(place, bytes@),
            None => wallet_output_read(bytes@) is None,
        },
{
    match read_output_fields(bytes.as_slice()) {
        Some(p) => Some(
            FoundOutput {
                transaction: p.0,
                index_in_tx: p.1,
                index_on_chain: place,
                key: p.2,
                amount: p.3,
                wallet_output: bytes,
            },
        ),
        None => None,
    }
}

/// The outputs that view keys find in a block with its pruned transactions: at
/// which places among the chain's RingCT outputs, and each serialized; or what is
/// said where the block cannot be scanned.
pub uninterp spec fn scan_found(
    spend: Seq<u8>,
    view: Seq<u8>,
    block: Seq<u8>,
    transactions: Seq<Seq<u8>>,
    first_output: u64,
) -> Result<Map<u64, Seq<u8>>, Seq<char>>;

/// How many RingCT outputs serialized transactions make: all the outputs of those
/// of version two, and no others.
pub open spec fn tx_places(transactions: Seq<Seq<u8>>) -> nat
    decreases transactions.len(),
{
    if transactions.len() == 0 {
        0
    } else {
        tx_places(transactions.drop_last()) + match pruned_tx_of(transactions.last()) {
            Ok(tx) => if tx.version == 2 {
                tx.outputs as nat
            } else {
                0
            },
            Err(_) => 0,
        }
    }
}

/// How many RingCT outputs a serialized block makes with its transactions.
pub open spec fn block_places(block: Seq<u8>, transactions: Seq<Seq<u8>>) -> nat {
    tx_places(transactions) + match block_of(block) {
        Ok(b) => if b.miner_version == 2 {
            b.miner_outputs as nat
        } else {
            0
        },
        Err(_) => 0,
    }
}

/// What was found at the first places from one on, in the order of the places.
pub open spec fn listed(found: Map<u64, Seq<u8>>, first: u64, places: nat) -> Seq<(u64, Seq<u8>)>
    decreases places,
{
    if places == 0 {
        Seq::empty()
    } else {
        let before = listed(found, first, (places - 1) as nat);
        let place = first + places - 1;
        if place <= u64::MAX && found.contains_key(place as u64) {
            before.push((place as u64, found[place as u64]))
        } else {
            before
        }
    }
}

/// Places and serialized outputs in pairs.
pub open spec fn placed(list: Seq<(u64, Vec<u8>)>) -> Seq<(u64, Seq<u8>)> {
    list.map_values(|p: (u64, Vec<u8>)| (p.0, p.1@))
}

/// What is listed lies at the places asked for, in ascending order, each once.
pub proof fn law_places_ascend(found: Map<u64, Seq<u8>>, first: u64, places: nat)
    ensures
        forall|i: int|
            0 <= i < listed(found, first, places).len() ==> first <= (#[trigger] listed(
                found,
                first,
                places,
            )[i]).0 < first + places,
        forall|i: int, j: int|
            0 <= i < j < listed(found, first, places).len() ==> (#[trigger] listed(
                found,
                first,
                places,
            )[i]).0 < (#[trigger] listed(found, first, places)[j]).0,
    decreases places,
{
    if places > 0 {
        let all = listed(found, first, places);
        let less = listed(found, first, (places - 1) as nat);
        law_places_ascend(found, first, (places - 1) as nat);
        assert forall|i: int| 0 <= i < less.len() implies #[trigger] all[i] == less[i] by {}
        assert forall|i: int| 0 <= i < all.len() implies first <= (#[trigger] all[i]).0 < first
            + places by {
            if i < less.len() {
                assert(less[i].0 < first + places - 1);
            }
        }
        assert forall|i: int, j: int| 0 <= i < j < all.len() implies (#[trigger] all[i]).0 < (
        #[trigger] all[j]).0 by {
            if j < less.len() {
                assert(less[i].0 < less[j].0);
            } else {
                assert(less[i].0 < first + places - 1);
            }
        }
    }
}

/// `monero_wallet::Scanner::scan` with a fresh scanner for the view pair, on the
/// block and the transactions read from their bytes, then each output without an
/// additional timelock: its place among the chain's RingCT outputs by
/// `WalletOutput::index_on_blockchain`, and its `WalletOutput::serialize`, which
/// `WalletOutput::read` reads again; or the scanner's error as `Debug` shows it.
/// The outputs come in the order of their places, no place comes twice, and all of
/// them are among those of the block, which begin at the given one.
#[verifier::external_body]
pub(crate) fn scan_block(
    spend: [u8; 32],
    view: [u8; 32],
    block: &[u8],
    transactions: &Vec<Vec<u8>>,
    first_output: u64,
) -> (r: Result<Vec<(u64, Vec<u8>)>, String>)
    requires
        edwards_point(spend@),
        view_pair_accepted(spend@, view@),
        block_read(block@) is Ok,
        forall|i: int|
            0 <= i < transactions.len() ==> pruned_read((#[trigger] transactions@[i])@) is Ok,
    ensures
        ({
            let txs = bytes::blobs(transactions@);
            let found = scan_found(spend@, view@, block@, txs, first_output);
            match r {
                Ok(v) => found is Ok && placed(v@) == listed(
                    found->Ok_0,
                    first_output,
                    block_places(block@, txs),
                ),
                Err(e) => found == Err::<Map<u64, Seq<u8>>, Seq<char>>(e@),
            }
        }),
        r matches Ok(v) ==> forall|i: int|
            0 <= i < v.len() ==> wallet_output_read((#[trigger] v@[i]).1@) is Some,
{
    let point = CompressedEdwardsY(spend).decompress().unwrap();
    let scalar = Scalar::from(DalekScalar::from_bytes_mod_order(view));
    let pair = ViewPair::new(Point::from(point), Zeroizing::new(scalar)).unwrap();
    let txs = transactions.iter().map(|t| Transaction::read(&mut t.as_slice()).unwrap());
    let scannable = OxideScannableBlock {
        block: Block::read(&mut &*block).unwrap(),
        transactions: txs.collect(),
        output_index_for_first_ringct_output: Some(first_output),
    };
    let found = Scanner::new(pair).scan(scannable).map_err(|e| format!("{e:?}"))?;
    let found = found.not_additionally_locked();
    Ok(found.iter().map(|o| (o.index_on_blockchain(), o.serialize())).collect())
}

} // verus!
