//! The daemon's RPC: what is asked, and what the replies say.
use vstd::prelude::*;

use crate::bytes::{self, bytes_32, decode_hex, encode_hex, same_key, HexError};
use crate::chain::{
    self, hash_told, read_block, read_full_tx, read_pruned_tx, BlockInfo, BlockView, FullTx,
    FullTxView, PointError, PrunedTx, PrunedTxView,
};
use crate::json::{self, json_str, object_1, push_field, Json, JsonView};
use crate::list;

verus! {

// ---------------------------------------------------------------------------
// Errors
// ---------------------------------------------------------------------------

/// Why a reply is of no use.
#[derive(Debug)]
pub enum RpcError {
    /// The daemon answered the call with an error.
    Refused { call: String, error: Json },
    /// The reply to the call has no result.
    NoResult { call: String },
    BadCount,
    NoBlob,
    BlobHex(HexError),
    BlockParse(String),
    NoTxs,
    /// There are not as many transactions as were asked for.
    TxCount,
    /// A transaction is another than the one that was asked for.
    ForeignTx,
    TxHex(HexError),
    PrunableHashHex(HexError),
    PrunableHashLength,
    TxParse(String),
    /// A transaction of version one came with a prunable hash, or another without one.
    PrunedTransaction,
    NoOutputIndexes,
    BadOutputIndex,
    NoOuts,
    /// There are not as many outputs as were asked for.
    OutCount,
    NoKey,
    NoMask,
    NoTxid,
    KeyHex(HexError),
    MaskHex(HexError),
    TxidHex(HexError),
    Point(PointError),
    TxidLength,
    BadDistribution,
    BadDistributionValue,
    NoHash,
    HashHex(HexError),
    HashLength,
    InvalidFee,
    /// The daemon did not take the transaction.
    Rejected { status: Option<String>, reason: Json },
    /// A count of outputs exceeds the largest `u64`.
    CountOverflow,
}

/// What an error says.
pub enum Fault {
    Refused { call: Seq<char>, error: JsonView },
    NoResult { call: Seq<char> },
    BadCount,
    NoBlob,
    BlobHex(HexError),
    BlockParse(Seq<char>),
    NoTxs,
    TxCount,
    ForeignTx,
    TxHex(HexError),
    PrunableHashHex(HexError),
    PrunableHashLength,
    TxParse(Seq<char>),
    PrunedTransaction,
    NoOutputIndexes,
    BadOutputIndex,
    NoOuts,
    OutCount,
    NoKey,
    NoMask,
    NoTxid,
    KeyHex(HexError),
    MaskHex(HexError),
    TxidHex(HexError),
    Point(PointError),
    TxidLength,
    BadDistribution,
    BadDistributionValue,
    NoHash,
    HashHex(HexError),
    HashLength,
    InvalidFee,
    Rejected { status: Option<Seq<char>>, reason: JsonView },
    CountOverflow,
}

impl View for RpcError {
    type V = Fault;

    open spec fn view(&self) -> Fault {
        match *self {
            RpcError::Refused { call, error } => Fault::Refused { call: call@, error: error@ },
            RpcError::NoResult { call } => Fault::NoResult { call: call@ },
            RpcError::BadCount => Fault::BadCount,
            RpcError::NoBlob => Fault::NoBlob,
            RpcError::BlobHex(e) => Fault::BlobHex(e),
            RpcError::BlockParse(m) => Fault::BlockParse(m@),
            RpcError::NoTxs => Fault::NoTxs,
            RpcError::TxCount => Fault::TxCount,
            RpcError::ForeignTx => Fault::ForeignTx,
            RpcError::TxHex(e) => Fault::TxHex(e),
            RpcError::PrunableHashHex(e) => Fault::PrunableHashHex(e),
            RpcError::PrunableHashLength => Fault::PrunableHashLength,
            RpcError::TxParse(m) => Fault::TxParse(m@),
            RpcError::PrunedTransaction => Fault::PrunedTransaction,
            RpcError::NoOutputIndexes => Fault::NoOutputIndexes,
            RpcError::BadOutputIndex => Fault::BadOutputIndex,
            RpcError::NoOuts => Fault::NoOuts,
            RpcError::OutCount => Fault::OutCount,
            RpcError::NoKey => Fault::NoKey,
            RpcError::NoMask => Fault::NoMask,
            RpcError::NoTxid => Fault::NoTxid,
            RpcError::KeyHex(e) => Fault::KeyHex(e),
            RpcError::MaskHex(e) => Fault::MaskHex(e),
            RpcError::TxidHex(e) => Fault::TxidHex(e),
            RpcError::Point(e) => Fault::Point(e),
            RpcError::TxidLength => Fault::TxidLength,
            RpcError::BadDistribution => Fault::BadDistribution,
            RpcError::BadDistributionValue => Fault::BadDistributionValue,
            RpcError::NoHash => Fault::NoHash,
            RpcError::HashHex(e) => Fault::HashHex(e),
            RpcError::HashLength => Fault::HashLength,
            RpcError::InvalidFee => Fault::InvalidFee,
            RpcError::Rejected { status, reason } => Fault::Rejected {
                status: match status {
                    Some(s) => Some(s@),
                    None => None,
                },
                reason: reason@,
            },
            RpcError::CountOverflow => Fault::CountOverflow,
        }
    }
}

/// What a reply says, where one was asked for.
pub open spec fn heard(reply: Option<&Json>) -> Option<JsonView> {
    match reply {
        Some(v) => Some(v@),
        None => None,
    }
}

/// A result says what is stated of it.
pub open spec fn says<T: View>(r: Result<T, RpcError>, stated: Result<T::V, Fault>) -> bool {
    match r {
        Ok(x) => stated == Ok::<T::V, Fault>(x@),
        Err(e) => stated == Err::<T::V, Fault>(e@),
    }
}

/// A list of results says what is stated of it.
pub open spec fn says_list<T: View>(
    r: Result<Vec<T>, RpcError>,
    stated: Result<Seq<T::V>, Fault>,
) -> bool {
    match r {
        Ok(v) => stated == Ok::<Seq<T::V>, Fault>(list::views(v@)),
        Err(e) => stated == Err::<Seq<T::V>, Fault>(e@),
    }
}

/// Applies a function to each element of a list, up to the first error.
pub(crate) fn each_of<T: View, U: View, F: Fn(&T) -> Result<U, RpcError>>(
    items: &Vec<T>,
    f: F,
    Ghost(stated): Ghost<spec_fn(T::V) -> Result<U::V, Fault>>,
) -> (r: Result<Vec<U>, RpcError>)
    requires
        forall|x: &T| call_requires(f, (x,)),
        forall|x: &T, y: Result<U, RpcError>|
            #[trigger] call_ensures(f, (x,), y) ==> says(y, stated(x@)),
    ensures
        says_list(r, list::each(list::views(items@), stated)),
        r matches Ok(v) ==> v.len() == items.len(),
{
    let ghost all = list::views(items@);
    let mut out: Vec<U> = Vec::new();
    let mut i: usize = 0;
    assert(all.take(0) =~= Seq::<T::V>::empty());
    assert(list::views(out@) =~= Seq::<U::V>::empty());
    while i < items.len()
        invariant
            i <= items.len(),
            out.len() == i,
            all == list::views(items@),
            forall|x: &T| call_requires(f, (x,)),
            forall|x: &T, y: Result<U, RpcError>|
                #[trigger] call_ensures(f, (x,), y) ==> says(y, stated(x@)),
            list::each(all.take(i as int), stated) == Ok::<Seq<U::V>, Fault>(list::views(out@)),
        decreases items.len() - i,
    {
        proof {
            assert(all[i as int] == items[i as int]@);
            list::lemma_each_step(all, stated, i as int);
        }
        match f(&items[i]) {
            Err(e) => {
                proof {
                    list::lemma_each_stops(all, stated, i + 1);
                }
                return Err(e);
            },
            Ok(x) => {
                let ghost before = list::views(out@);
                out.push(x);
                assert(list::views(out@) =~= before.push(x@));
            },
        }
        i += 1;
    }
    assert(all.take(items.len() as int) =~= all);
    Ok(out)
}

// ---------------------------------------------------------------------------
// Requests
// ---------------------------------------------------------------------------

/// A JSON body to be posted to a URL.
#[derive(Debug)]
pub struct Request {
    pub url: String,
    pub body: Json,
}

/// What a request says.
pub struct RequestView {
    pub url: Seq<char>,
    pub body: JsonView,
}

impl View for Request {
    type V = RequestView;

    open spec fn view(&self) -> RequestView {
        RequestView { url: self.url@, body: self.body@ }
    }
}

/// A Monero daemon JSON-RPC client: where the daemon is, and how many RingCT
/// outputs the chain had up to and including one block.
pub struct DaemonRpc {
    pub url: String,
    /// A block height, and the number of RingCT outputs in the blocks up to it.
    pub ringct_at: Option<(usize, u64)>,
}

/// A call of a method of the daemon's `/json_rpc` map.
pub open spec fn rpc_call(url: Seq<char>, method: Seq<char>, params: JsonView) -> RequestView {
    RequestView {
        url: url + "/json_rpc"@,
        body: JsonView::Object(
            seq![
                ("jsonrpc"@, JsonView::Str("2.0"@)),
                ("id"@, JsonView::Number(0)),
                ("method"@, JsonView::Str(method)),
                ("params"@, params),
            ],
        ),
    }
}

/// A call of one of the daemon's own URIs.
pub open spec fn uri_call(url: Seq<char>, uri: Seq<char>, body: JsonView) -> RequestView {
    RequestView { url: url + uri, body }
}

/// The result in a reply of the `/json_rpc` map, or why there is none.
pub open spec fn rpc_result(call: Seq<char>, reply: JsonView) -> Result<JsonView, Fault> {
    match reply.get("error"@) {
        Some(error) => Err(Fault::Refused { call, error }),
        None => match reply.get("result"@) {
            Some(v) => Ok(v),
            None => Err(Fault::NoResult { call }),
        },
    }
}

/// The result in a reply of a URI, which comes without a wrapper.
pub open spec fn uri_result(call: Seq<char>, reply: JsonView) -> Result<JsonView, Fault> {
    match reply.get("error"@) {
        Some(error) => Err(Fault::Refused { call, error }),
        None => Ok(reply),
    }
}

/// The result in a reply of the `/json_rpc` map.
pub fn post_result<'a>(call: &str, reply: &'a Json) -> (r: Result<&'a Json, RpcError>)
    ensures
        match r {
            Ok(v) => rpc_result(call@, reply@) == Ok::<JsonView, Fault>(v@),
            Err(e) => rpc_result(call@, reply@) == Err::<JsonView, Fault>(e@),
        },
{
    match reply.get("error") {
        Some(error) => Err(RpcError::Refused { call: call.to_owned(), error: error.copy() }),
        None => match reply.get("result") {
            Some(v) => Ok(v),
            None => Err(RpcError::NoResult { call: call.to_owned() }),
        },
    }
}

/// The result in a reply of a URI.
pub fn post_uri_result<'a>(call: &str, reply: &'a Json) -> (r: Result<&'a Json, RpcError>)
    ensures
        match r {
            Ok(v) => uri_result(call@, reply@) == Ok::<JsonView, Fault>(v@),
            Err(e) => uri_result(call@, reply@) == Err::<JsonView, Fault>(e@),
        },
{
    match reply.get("error") {
        Some(error) => Err(RpcError::Refused { call: call.to_owned(), error: error.copy() }),
        None => Ok(reply),
    }
}

impl DaemonRpc {
    /// A client for the daemon at a URL, with no count of outputs yet.
    pub fn new(url: &str) -> (r: DaemonRpc)
        ensures
            r.url@ == url@,
            r.ringct_at is None,
    {
        DaemonRpc { url: url.to_owned(), ringct_at: None }
    }

    /// A call of a method of the `/json_rpc` map.
    pub fn post(&self, method: &str, params: Json) -> (r: Request)
        ensures
            r@ == rpc_call(self.url@, method@, params@),
            r.url@ == self.url@ + "/json_rpc"@,
    {
        let mut url: String = self.url.clone();
        url.append("/json_rpc");
        let mut fields: Vec<(String, Json)> = Vec::new();
        push_field(&mut fields, "jsonrpc", json_str("2.0"));
        push_field(&mut fields, "id", Json::Number(0));
        push_field(&mut fields, "method", json_str(method));
        push_field(&mut fields, "params", params);
        assert(json::json_fields(fields@) =~= rpc_call(
            self.url@,
            method@,
            params@,
        ).body->Object_0);
        Request { url, body: Json::Object(fields) }
    }

    /// A call of one of the daemon's URIs, such as `/get_transactions`. The daemon
    /// serves the methods on transactions this way and not in the `/json_rpc` map.
    pub fn post_uri(&self, uri: &str, body: Json) -> (r: Request)
        ensures
            r@ == uri_call(self.url@, uri@, body@),
            r.url@ == self.url@ + uri@,
            r.body@ == body@,
    {
        let mut url: String = self.url.clone();
        url.append(uri);
        Request { url, body }
    }
}

// ---------------------------------------------------------------------------
// The latest block
// ---------------------------------------------------------------------------

/// The number of the latest block: one less than the count of blocks.
pub open spec fn latest_block(reply: JsonView) -> Result<usize, Fault> {
    match rpc_result("get_block_count"@, reply) {
        Err(f) => Err(f),
        Ok(res) => match res.at("count"@).number() {
            None => Err(Fault::BadCount),
            Some(count) => Ok(
                (if count > 0 {
                    count - 1
                } else {
                    0
                }) as usize,
            ),
        },
    }
}

impl DaemonRpc {
    /// Asks for the count of blocks.
    pub fn latest_block_number_request(&self) -> (r: Request)
        ensures
            r@ == rpc_call(self.url@, "get_block_count"@, JsonView::Object(Seq::empty())),
    {
        let fields: Vec<(String, Json)> = Vec::new();
        let params: Json = Json::Object(fields);
        assert(params@ == JsonView::Object(Seq::empty()));
        self.post("get_block_count", params)
    }

    /// get_block_count → the number of the latest block (count - 1).
    pub fn latest_block_number_(&self, reply: &Json) -> (r: Result<usize, RpcError>)
        ensures
            match r {
                Ok(n) => latest_block(reply@) == Ok::<usize, Fault>(n),
                Err(e) => latest_block(reply@) == Err::<usize, Fault>(e@),
            },
    {
        match post_result("get_block_count", reply) {
            Err(e) => Err(e),
            Ok(res) => match res.u64_at("count") {
                None => Err(RpcError::BadCount),
                Some(count) => {
                    let n: u64 = if count > 0 {
                        count - 1
                    } else {
                        0
                    };
                    Ok(n as usize)
                },
            },
        }
    }
}

// ---------------------------------------------------------------------------
// Blocks
// ---------------------------------------------------------------------------

/// The block in a reply.
pub open spec fn block_in(reply: JsonView) -> Result<BlockView, Fault> {
    match rpc_result("get_block"@, reply) {
        Err(f) => Err(f),
        Ok(res) => match res.at("blob"@).text() {
            None => Err(Fault::NoBlob),
            Some(hex) => match bytes::hex_decoded_text(hex) {
                Err(e) => Err(Fault::BlobHex(e)),
                Ok(blob) => match chain::block_of(blob) {
                    Err(m) => Err(Fault::BlockParse(m)),
                    Ok(block) => Ok(block),
                },
            },
        },
    }
}

/// The hash in a reply that carries a block header.
pub open spec fn block_hash_in(reply: JsonView) -> Result<Seq<u8>, Fault> {
    match rpc_result("get_block_header_by_height"@, reply) {
        Err(f) => Err(f),
        Ok(res) => match res.at("block_header"@).at("hash"@).text() {
            None => Err(Fault::NoHash),
            Some(hex) => match bytes::hex_decoded_text(hex) {
                Err(e) => Err(Fault::HashHex(e)),
                Ok(hash) => if hash.len() == 32 {
                    Ok(hash)
                } else {
                    Err(Fault::HashLength)
                },
            },
        },
    }
}

/// An object with one field that holds bytes in hexadecimal.
pub(crate) fn hex_field(name: &str, data: &[u8]) -> (r: Json)
    ensures
        r@ == JsonView::Object(seq![(name@, JsonView::Str(bytes::hex_text(data@)))]),
{
    object_1(name, Json::Str(encode_hex(data)))
}

impl DaemonRpc {
    /// Asks for the block at a height.
    pub fn block_by_number_request(&self, number: usize) -> (r: Request)
        ensures
            r@ == rpc_call(
                self.url@,
                "get_block"@,
                JsonView::Object(seq![("height"@, JsonView::Number(number as u64))]),
            ),
    {
        self.post("get_block", object_1("height", Json::Number(number as u64)))
    }

    /// Asks for the block with a hash.
    pub fn block_request(&self, hash: &[u8; 32]) -> (r: Request)
        ensures
            r@ == rpc_call(
                self.url@,
                "get_block"@,
                JsonView::Object(seq![("hash"@, JsonView::Str(bytes::hex_text(hash@)))]),
            ),
    {
        self.post("get_block", hex_field("hash", hash))
    }

    /// get_block by height OR hash → one block.
    pub fn block_(reply: &Json) -> (r: Result<BlockInfo, RpcError>)
        ensures
            says(r, block_in(reply@)),
    {
        match post_result("get_block", reply) {
            Err(e) => Err(e),
            Ok(res) => match res.str_at("blob") {
                None => Err(RpcError::NoBlob),
                Some(hex) => match decode_hex(hex) {
                    Err(e) => Err(RpcError::BlobHex(e)),
                    Ok(blob) => match read_block(blob) {
                        Err(e) => Err(RpcError::BlockParse(e)),
                        Ok(block) => Ok(block),
                    },
                },
            },
        }
    }

    /// Asks for the header of the block at a height.
    pub fn block_hash_request(&self, number: usize) -> (r: Request)
        ensures
            r@ == rpc_call(
                self.url@,
                "get_block_header_by_height"@,
                JsonView::Object(seq![("height"@, JsonView::Number(number as u64))]),
            ),
    {
        self.post(
            "get_block_header_by_height",
            object_1("height", Json::Number(number as u64)),
        )
    }

    /// get_block_header_by_height → the block's hash.
    pub fn block_hash(reply: &Json) -> (r: Result<[u8; 32], RpcError>)
        ensures
            says(r, block_hash_in(reply@)),
    {
        let res: &Json = match post_result("get_block_header_by_height", reply) {
            Err(e) => {
                return Err(e);
            },
            Ok(res) => res,
        };
        let hash: Option<&str> = match res.get("block_header") {
            None => None,
            Some(header) => header.str_at("hash"),
        };
        match hash {
            None => Err(RpcError::NoHash),
            Some(hex) => match decode_hex(hex) {
                Err(e) => Err(RpcError::HashHex(e)),
                Ok(b) => match bytes_32(b.as_slice()) {
                    None => Err(RpcError::HashLength),
                    Some(h) => Ok(h),
                },
            },
        }
    }
}

// ---------------------------------------------------------------------------
// Transactions
// ---------------------------------------------------------------------------

/// A transaction as the daemon hands it out, with the hash it was asked for by.
pub struct RawTx {
    pub hash: [u8; 32],
    pub bytes: Vec<u8>,
    pub prunable_hash: Option<[u8; 32]>,
}

/// What such a transaction says.
pub struct RawTxView {
    pub hash: Seq<u8>,
    pub bytes: Seq<u8>,
    pub prunable_hash: Option<Seq<u8>>,
}

impl View for RawTx {
    type V = RawTxView;

    open spec fn view(&self) -> RawTxView {
        RawTxView {
            hash: self.hash@,
            bytes: self.bytes@,
            prunable_hash: match self.prunable_hash {
                Some(h) => Some(h@),
                None => None,
            },
        }
    }
}

impl RawTx {
    /// This is the transaction with a hash, as far as its bytes tell their hash.
    pub open spec fn is_of(self, hash: [u8; 32]) -> bool {
        &&& self.hash == hash
        &&& chain::told_hash(self.bytes@, self@.prunable_hash) matches Some(h) ==> h == hash@
    }
}

/// A text, or the empty one where there is none.
pub open spec fn text_or_empty(v: JsonView) -> Seq<char> {
    match v.text() {
        Some(s) => s,
        None => Seq::empty(),
    }
}

/// The serialized form of a transaction in hexadecimal. Of a pruned transaction
/// the daemon leaves `as_hex` empty and fills `pruned_as_hex`.
pub open spec fn tx_hex(t: JsonView) -> Seq<char> {
    let full = text_or_empty(t.at("as_hex"@));
    if full.len() == 0 {
        text_or_empty(t.at("pruned_as_hex"@))
    } else {
        full
    }
}

/// The prunable hash that comes with a transaction: a missing one and an empty one are none.
pub open spec fn prunable_hash_in(t: JsonView) -> Result<Option<Seq<u8>>, Fault> {
    let hex = text_or_empty(t.at("prunable_hash"@));
    if hex.len() == 0 {
        Ok(None)
    } else {
        match bytes::hex_decoded_text(hex) {
            Err(e) => Err(Fault::PrunableHashHex(e)),
            Ok(hash) => if hash.len() == 32 {
                Ok(Some(hash))
            } else {
                Err(Fault::PrunableHashLength)
            },
        }
    }
}

/// Whether an entry is another transaction than the one with a hash: it says so
/// itself, or its bytes tell another hash.
pub open spec fn is_foreign(hash: Seq<u8>, t: JsonView, told: Option<Seq<u8>>) -> bool {
    ||| t.at("tx_hash"@).text() matches Some(named) && bytes::hex_decoded_text(named) != Ok::<
        Seq<u8>,
        HexError,
    >(hash)
    ||| told matches Some(h) && h != hash
}

/// One transaction of a reply, which was asked for by its hash.
pub open spec fn raw_tx_in(hash: Seq<u8>, t: JsonView) -> Result<RawTxView, Fault> {
    match bytes::hex_decoded_text(tx_hex(t)) {
        Err(e) => Err(Fault::TxHex(e)),
        Ok(data) => match prunable_hash_in(t) {
            Err(f) => Err(f),
            Ok(prunable_hash) => if is_foreign(
                hash,
                t,
                chain::told_hash(data, prunable_hash),
            ) {
                Err(Fault::ForeignTx)
            } else {
                Ok(RawTxView { hash, bytes: data, prunable_hash })
            },
        },
    }
}

/// [`raw_tx_in`] as a function.
pub open spec fn raw_tx_fn() -> spec_fn((Seq<u8>, JsonView)) -> Result<RawTxView, Fault> {
    |p: (Seq<u8>, JsonView)| raw_tx_in(p.0, p.1)
}

/// Hashes and the entries of a reply in pairs.
pub open spec fn paired(hashes: Seq<Seq<u8>>, txs: Seq<JsonView>) -> Seq<(Seq<u8>, JsonView)> {
    Seq::new(hashes.len(), |i: int| (hashes[i], txs[i]))
}

/// The transactions in a reply, one for each hash that was asked for, in order.
/// For no hashes there is nothing to ask.
pub open spec fn raw_txs_in(hashes: Seq<Seq<u8>>, reply: Option<JsonView>) -> Result<
    Seq<RawTxView>,
    Fault,
> {
    if hashes.len() == 0 {
        Ok(Seq::empty())
    } else {
        match reply {
            None => Err(Fault::NoTxs),
            Some(reply) => match uri_result("/get_transactions"@, reply) {
                Err(f) => Err(f),
                Ok(res) => match res.at("txs"@).elements() {
                    None => Err(Fault::NoTxs),
                    Some(txs) => if txs.len() != hashes.len() {
                        Err(Fault::TxCount)
                    } else {
                        list::each(paired(hashes, txs), raw_tx_fn())
                    },
                },
            },
        }
    }
}

/// The pruned transaction of a raw one.
pub open spec fn pruned_tx_fn() -> spec_fn(RawTxView) -> Result<PrunedTxView, Fault> {
    |t: RawTxView|
        match chain::pruned_tx_of(t.bytes) {
            Ok(tx) => Ok(tx),
            Err(m) => Err(Fault::TxParse(m)),
        }
}

/// The pruned transactions in a reply, read for their contents alone.
pub open spec fn pruned_txs_in(hashes: Seq<Seq<u8>>, reply: Option<JsonView>) -> Result<
    Seq<PrunedTxView>,
    Fault,
> {
    match raw_txs_in(hashes, reply) {
        Err(f) => Err(f),
        Ok(raw) => list::each(raw, pruned_tx_fn()),
    }
}

/// Whether a prunable hash goes with a version: none with version one, one with every other.
pub open spec fn prunable_hash_fits(version: u8, prunable_hash: bool) -> bool {
    (version != 1) == prunable_hash
}

/// A pruned transaction together with its prunable hash.
pub struct HashedTx {
    pub tx: PrunedTx,
    pub prunable_hash: Option<[u8; 32]>,
}

/// What such a pair says.
pub struct HashedTxView {
    pub tx: PrunedTxView,
    pub prunable_hash: Option<Seq<u8>>,
}

impl View for HashedTx {
    type V = HashedTxView;

    open spec fn view(&self) -> HashedTxView {
        HashedTxView {
            tx: self.tx@,
            prunable_hash: match self.prunable_hash {
                Some(h) => Some(h@),
                None => None,
            },
        }
    }
}

/// The pruned transaction of a raw one together with its prunable hash.
pub open spec fn hashed_tx_fn() -> spec_fn(RawTxView) -> Result<HashedTxView, Fault> {
    |t: RawTxView|
        match chain::pruned_tx_of(t.bytes) {
            Ok(tx) => if prunable_hash_fits(tx.version, t.prunable_hash is Some) {
                Ok(HashedTxView { tx, prunable_hash: t.prunable_hash })
            } else {
                Err(Fault::PrunedTransaction)
            },
            Err(m) => Err(Fault::TxParse(m)),
        }
}

/// The full transaction of a raw one.
pub open spec fn full_tx_fn() -> spec_fn(RawTxView) -> Result<FullTxView, Fault> {
    |t: RawTxView|
        match chain::full_tx_of(t.bytes) {
            Ok(tx) => Ok(tx),
            Err(m) => Err(Fault::TxParse(m)),
        }
}

/// The text of a field, or the empty one.
fn str_or_empty<'a>(v: &'a Json, name: &str) -> (r: &'a str)
    ensures
        r@ == text_or_empty(v@.at(name@)),
{
    match v.str_at(name) {
        Some(s) => s,
        None => {
            proof {
                reveal_strlit("");
                assert(""@ =~= Seq::<char>::empty());
            }
            ""
        },
    }
}

/// Tells whether an entry is another transaction than the one with a hash, given
/// the hash that its bytes tell, where they tell one.
pub fn tells_foreign(hash: &[u8; 32], t: &Json, told: Option<[u8; 32]>) -> (r: bool)
    ensures
        r == is_foreign(
            hash@,
            t@,
            match told {
                Some(h) => Some(h@),
                None => None,
            },
        ),
{
    match t.str_at("tx_hash") {
        Some(named) => match decode_hex(named) {
            Err(_) => {
                return true;
            },
            Ok(b) => match bytes_32(b.as_slice()) {
                None => {
                    return true;
                },
                Some(h) => {
                    if !same_key(&h, hash) {
                        return true;
                    }
                },
            },
        },
        None => {},
    }
    match told {
        Some(h) => !same_key(&h, hash),
        None => false,
    }
}

/// One transaction of a reply, which was asked for by its hash.
fn raw_tx(hash: &[u8; 32], t: &Json) -> (r: Result<RawTx, RpcError>)
    ensures
        says(r, raw_tx_in(hash@, t@)),
        r matches Ok(tx) ==> tx.is_of(*hash),
{
    let as_hex: &str = str_or_empty(t, "as_hex");
    let tx_hex: &str = if as_hex.is_empty() {
        str_or_empty(t, "pruned_as_hex")
    } else {
        as_hex
    };
    let bytes: Vec<u8> = match decode_hex(tx_hex) {
        Err(e) => {
            return Err(RpcError::TxHex(e));
        },
        Ok(b) => b,
    };
    let hash_hex: &str = str_or_empty(t, "prunable_hash");
    let prunable_hash: Option<[u8; 32]> = if hash_hex.is_empty() {
        None
    } else {
        match decode_hex(hash_hex) {
            Err(e) => {
                return Err(RpcError::PrunableHashHex(e));
            },
            Ok(b) => match bytes_32(b.as_slice()) {
                None => {
                    return Err(RpcError::PrunableHashLength);
                },
                Some(h) => Some(h),
            },
        }
    };
    if tells_foreign(hash, t, hash_told(bytes.as_slice(), prunable_hash)) {
        return Err(RpcError::ForeignTx);
    }
    Ok(RawTx { hash: *hash, bytes, prunable_hash })
}

/// Reads a raw transaction as a pruned one.
fn pruned_tx(t: &RawTx) -> (r: Result<PrunedTx, RpcError>)
    ensures
        says(r, pruned_tx_fn()(t@)),
{
    match read_pruned_tx(t.bytes.clone()) {
        Err(e) => Err(RpcError::TxParse(e)),
        Ok(tx) => Ok(tx),
    }
}

/// Reads a raw transaction as a pruned one and keeps its prunable hash.
fn hashed_tx(t: &RawTx) -> (r: Result<HashedTx, RpcError>)
    ensures
        says(r, hashed_tx_fn()(t@)),
{
    match read_pruned_tx(t.bytes.clone()) {
        Err(e) => Err(RpcError::TxParse(e)),
        Ok(tx) => {
            if (tx.version() != 1) != t.prunable_hash.is_some() {
                Err(RpcError::PrunedTransaction)
            } else {
                Ok(HashedTx { tx, prunable_hash: t.prunable_hash })
            }
        },
    }
}

/// Reads a raw transaction as a full one.
fn full_tx(t: &RawTx) -> (r: Result<FullTx, RpcError>)
    ensures
        says(r, full_tx_fn()(t@)),
{
    match read_full_tx(t.bytes.as_slice()) {
        Err(e) => Err(RpcError::TxParse(e)),
        Ok(tx) => Ok(tx),
    }
}

/// The request for some transactions.
pub open spec fn txs_call(url: Seq<char>, hashes: Seq<Seq<u8>>, prune: bool) -> RequestView {
    uri_call(
        url,
        "/get_transactions"@,
        JsonView::Object(
            seq![
                (
                    "txs_hashes"@,
                    JsonView::Array(
                        hashes.map_values(|h: Seq<u8>| JsonView::Str(bytes::hex_text(h))),
                    ),
                ),
                ("prune"@, JsonView::Bool(prune)),
                ("split"@, JsonView::Bool(true)),
            ],
        ),
    )
}

impl DaemonRpc {
    /// Asks for transactions by their hashes, pruned or in full. There is nothing to
    /// ask where there are no hashes.
    pub fn txs_request(&self, hashes: &[[u8; 32]], prune: bool) -> (r: Option<Request>)
        ensures
            match r {
                Some(q) => hashes@.len() > 0 && q@ == txs_call(
                    self.url@,
                    bytes::keys(hashes@),
                    prune,
                ),
                None => hashes@.len() == 0,
            },
    {
        if hashes.is_empty() {
            return None;
        }
        let mut names: Vec<Json> = Vec::new();
        let ghost stated = bytes::keys(hashes@).map_values(
            |h: Seq<u8>| JsonView::Str(bytes::hex_text(h)),
        );
        let mut i: usize = 0;
        while i < hashes.len()
            invariant
                i <= hashes@.len(),
                stated == bytes::keys(hashes@).map_values(
                    |h: Seq<u8>| JsonView::Str(bytes::hex_text(h)),
                ),
                json::json_list(names@) == stated.take(i as int),
            decreases hashes@.len() - i,
        {
            let ghost before = names@;
            let hash: [u8; 32] = hashes[i];
            let name: Json = Json::Str(encode_hex(&hash));
            assert(bytes::keys(hashes@)[i as int] == hash@);
            assert(name@ == stated[i as int]);
            names.push(name);
            assert(names@.drop_last() =~= before);
            assert(names@.last() == name);
            assert(json::json_list(names@) =~= stated.take(i + 1));
            i += 1;
        }
        assert(stated.take(hashes@.len() as int) =~= stated);
        let mut fields: Vec<(String, Json)> = Vec::new();
        push_field(&mut fields, "txs_hashes", Json::Array(names));
        push_field(&mut fields, "prune", Json::Bool(prune));
        push_field(&mut fields, "split", Json::Bool(true));
        assert(json::json_fields(fields@) =~= txs_call(
            self.url@,
            bytes::keys(hashes@),
            prune,
        ).body->Object_0);
        Some(self.post_uri("/get_transactions", Json::Object(fields)))
    }

    /// get_transactions → (bytes, prunable hash) for the requested hashes, one for
    /// each, in order. Callers parse with the transaction type matching what they
    /// asked for.
    pub fn txs_(hashes: &[[u8; 32]], reply: Option<&Json>) -> (r: Result<Vec<RawTx>, RpcError>)
        ensures
            says_list(r, raw_txs_in(bytes::keys(hashes@), heard(reply))),
            r matches Ok(v) ==> v.len() == hashes@.len() && forall|i: int|
                0 <= i < v.len() ==> (#[trigger] v[i]).is_of(hashes@[i]),
    {
        let mut out: Vec<RawTx> = Vec::new();
        assert(list::views(out@) =~= Seq::<RawTxView>::empty());
        if hashes.is_empty() {
            return Ok(out);
        }
        let answer: &Json = match reply {
            None => {
                return Err(RpcError::NoTxs);
            },
            Some(reply) => reply,
        };
        let res: &Json = match post_uri_result("/get_transactions", answer) {
            Err(e) => {
                return Err(e);
            },
            Ok(res) => res,
        };
        let txs: &Vec<Json> = match res.array_at("txs") {
            None => {
                return Err(RpcError::NoTxs);
            },
            Some(txs) => txs,
        };
        proof {
            json::lemma_json_list(txs@);
        }
        if txs.len() != hashes.len() {
            return Err(RpcError::TxCount);
        }
        let ghost items = paired(bytes::keys(hashes@), json::json_list(txs@));
        let mut i: usize = 0;
        assert(items.take(0) =~= Seq::<(Seq<u8>, JsonView)>::empty());
        while i < txs.len()
            invariant
                i <= txs.len(),
                txs.len() == hashes@.len(),
                out.len() == i,
                forall|j: int| 0 <= j < i ==> (#[trigger] out[j]).is_of(hashes@[j]),
                json::json_list(txs@).len() == txs.len(),
                forall|j: int|
                    0 <= j < txs.len() ==> #[trigger] json::json_list(txs@)[j] == txs[j]@,
                items == paired(bytes::keys(hashes@), json::json_list(txs@)),
                raw_txs_in(bytes::keys(hashes@), heard(reply)) == list::each(items, raw_tx_fn()),
                list::each(items.take(i as int), raw_tx_fn()) == Ok::<Seq<RawTxView>, Fault>(
                    list::views(out@),
                ),
            decreases txs.len() - i,
        {
            let hash: [u8; 32] = hashes[i];
            proof {
                assert(bytes::keys(hashes@)[i as int] == hash@);
                assert(items[i as int] == (hash@, txs[i as int]@));
                list::lemma_each_step(items, raw_tx_fn(), i as int);
            }
            match raw_tx(&hash, &txs[i]) {
                Err(e) => {
                    proof {
                        list::lemma_each_stops(items, raw_tx_fn(), i + 1);
                    }
                    return Err(e);
                },
                Ok(t) => {
                    let ghost before = list::views(out@);
                    out.push(t);
                    assert(list::views(out@) =~= before.push(t@));
                },
            }
            i += 1;
        }
        assert(items.take(txs.len() as int) =~= items);
        Ok(out)
    }

    /// The pruned transactions in a reply, read for their contents alone.
    pub fn pruned_txs_(hashes: &[[u8; 32]], reply: Option<&Json>) -> (r: Result<
        Vec<PrunedTx>,
        RpcError,
    >)
        ensures
            says_list(r, pruned_txs_in(bytes::keys(hashes@), heard(reply))),
            r matches Ok(v) ==> v.len() == hashes@.len() && forall|i: int|
                0 <= i < v.len() ==> chain::pruned_tx_of(
                    raw_txs_in(bytes::keys(hashes@), heard(reply))->Ok_0[i].bytes,
                ) == Ok::<PrunedTxView, Seq<char>>((#[trigger] v[i])@),
    {
        match DaemonRpc::txs_(hashes, reply) {
            Err(e) => Err(e),
            Ok(raw) => {
                let ghost all = list::views(raw@);
                let read: Result<Vec<PrunedTx>, RpcError> = each_of(
                    &raw,
                    pruned_tx,
                    Ghost(pruned_tx_fn()),
                );
                proof {
                    list::law_each_is_elementwise(all, pruned_tx_fn());
                    if read is Ok {
                        let v = read->Ok_0;
                        assert forall|i: int| 0 <= i < v.len() implies chain::pruned_tx_of(
                            all[i].bytes,
                        ) == Ok::<PrunedTxView, Seq<char>>((#[trigger] v[i])@) by {
                            assert(list::views(v@)[i] == v[i]@);
                            assert(pruned_tx_fn()(all[i]) == Ok::<PrunedTxView, Fault>(v[i]@));
                        }
                    }
                }
                read
            },
        }
    }

    /// get_transactions, pruned → each transaction with its prunable hash.
    pub fn pruned_transactions(hashes: &[[u8; 32]], reply: Option<&Json>) -> (r: Result<
        Vec<HashedTx>,
        RpcError,
    >)
        ensures
            says_list(
                r,
                match raw_txs_in(bytes::keys(hashes@), heard(reply)) {
                    Err(f) => Err(f),
                    Ok(raw) => list::each(raw, hashed_tx_fn()),
                },
            ),
            r matches Ok(v) ==> v.len() == hashes@.len(),
    {
        match DaemonRpc::txs_(hashes, reply) {
            Err(e) => Err(e),
            Ok(raw) => each_of(&raw, hashed_tx, Ghost(hashed_tx_fn())),
        }
    }

    /// get_transactions, in full → the transactions.
    pub fn transactions(hashes: &[[u8; 32]], reply: Option<&Json>) -> (r: Result<
        Vec<FullTx>,
        RpcError,
    >)
        ensures
            says_list(
                r,
                match raw_txs_in(bytes::keys(hashes@), heard(reply)) {
                    Err(f) => Err(f),
                    Ok(raw) => list::each(raw, full_tx_fn()),
                },
            ),
            r matches Ok(v) ==> v.len() == hashes@.len() && forall|i: int|
                0 <= i < v.len() ==> (#[trigger] v[i]).hash@ == hashes@[i]@,
    {
        match DaemonRpc::txs_(hashes, reply) {
            Err(e) => Err(e),
            Ok(raw) => {
                proof {
                    list::law_each_is_elementwise(list::views(raw@), full_tx_fn());
                }
                let read: Result<Vec<FullTx>, RpcError> = each_of(
                    &raw,
                    full_tx,
                    Ghost(full_tx_fn()),
                );
                proof {
                    if read is Ok {
                        let v = read->Ok_0;
                        assert forall|i: int| 0 <= i < v.len() implies (#[trigger] v[i]).hash@
                            == hashes@[i]@ by {
                            assert(raw[i].is_of(hashes@[i]));
                            assert(list::views(v@)[i] == v[i]@);
                            assert(full_tx_fn()(list::views(raw@)[i]) == Ok::<FullTxView, Fault>(
                                v[i]@,
                            ));
                        }
                    }
                }
                read
            },
        }
    }
}

/// Where transactions come, there is one for each hash that was asked for, in
/// order, and none that says of itself, or shows, that it is another.
pub proof fn law_transactions_are_those_asked_for(
    hashes: Seq<Seq<u8>>,
    reply: Option<JsonView>,
    i: int,
)
    requires
        raw_txs_in(hashes, reply) is Ok,
        0 <= i < hashes.len(),
    ensures
        raw_txs_in(hashes, reply)->Ok_0.len() == hashes.len(),
        ({
            let t = raw_txs_in(hashes, reply)->Ok_0[i];
            let entry = reply->0.at("txs"@).elements()->0[i];
            &&& t.hash == hashes[i]
            &&& entry.at("tx_hash"@).text() matches Some(named) ==> bytes::hex_decoded_text(named)
                == Ok::<Seq<u8>, HexError>(hashes[i])
            &&& chain::told_hash(t.bytes, t.prunable_hash) matches Some(h) ==> h == hashes[i]
        }),
{
    let txs = reply->0.at("txs"@).elements()->0;
    let items = paired(hashes, txs);
    list::law_each_is_elementwise(items, raw_tx_fn());
    assert(raw_tx_fn()(items[i]) == Ok::<RawTxView, Fault>(raw_txs_in(hashes, reply)->Ok_0[i]));
}

/// A transaction that was asked for in full is the one with the hash asked for.
pub proof fn law_full_transactions_are_those_asked_for(
    hashes: Seq<Seq<u8>>,
    reply: Option<JsonView>,
    i: int,
)
    requires
        raw_txs_in(hashes, reply) is Ok,
        list::each(raw_txs_in(hashes, reply)->Ok_0, full_tx_fn()) is Ok,
        0 <= i < hashes.len(),
    ensures
        list::each(raw_txs_in(hashes, reply)->Ok_0, full_tx_fn())->Ok_0.len() == hashes.len(),
        list::each(raw_txs_in(hashes, reply)->Ok_0, full_tx_fn())->Ok_0[i].hash == hashes[i],
{
    let raw = raw_txs_in(hashes, reply)->Ok_0;
    law_transactions_are_those_asked_for(hashes, reply, i);
    list::law_each_is_elementwise(raw, full_tx_fn());
    assert(full_tx_fn()(raw[i]) == Ok::<FullTxView, Fault>(
        list::each(raw, full_tx_fn())->Ok_0[i],
    ));
}

// ---------------------------------------------------------------------------
// Lists of numbers
// ---------------------------------------------------------------------------

/// Each number of a list of JSON values, and `bad` where one is no number.
pub open spec fn number_fn(bad: Fault) -> spec_fn(JsonView) -> Result<u64, Fault> {
    |v: JsonView|
        match v.number() {
            Some(n) => Ok(n),
            None => Err(bad),
        }
}

/// The output indexes in a reply.
pub open spec fn output_indexes_in(reply: JsonView) -> Result<Seq<u64>, Fault> {
    match rpc_result("get_o_indexes"@, reply) {
        Err(f) => Err(f),
        Ok(res) => match res.at("o_indexes"@).elements() {
            None => Err(Fault::NoOutputIndexes),
            Some(v) => list::each(v, number_fn(Fault::BadOutputIndex)),
        },
    }
}

/// The list of numbers in the first distribution of a result.
pub open spec fn first_distribution(res: JsonView) -> Option<Seq<JsonView>> {
    match res.at("distributions"@).elements() {
        None => None,
        Some(d) => if d.len() == 0 {
            None
        } else {
            d[0].at("distribution"@).elements()
        },
    }
}

/// The output distribution in a reply.
pub open spec fn distribution_in(reply: JsonView) -> Result<Seq<u64>, Fault> {
    match rpc_result("get_output_distribution"@, reply) {
        Err(f) => Err(f),
        Ok(res) => match first_distribution(res) {
            None => Err(Fault::BadDistribution),
            Some(v) => list::each(v, number_fn(Fault::BadDistributionValue)),
        },
    }
}

/// Reads a list of numbers; `None` where an element is no number.
fn numbers(values: &Vec<Json>, Ghost(bad): Ghost<Fault>) -> (r: Option<Vec<u64>>)
    ensures
        match r {
            Some(v) => list::each(json::json_list(values@), number_fn(bad)) == Ok::<
                Seq<u64>,
                Fault,
            >(v@),
            None => list::each(json::json_list(values@), number_fn(bad)) == Err::<
                Seq<u64>,
                Fault,
            >(bad),
        },
{
    let ghost items = json::json_list(values@);
    proof {
        json::lemma_json_list(values@);
    }
    let mut out: Vec<u64> = Vec::new();
    let mut i: usize = 0;
    assert(items.take(0) =~= Seq::<JsonView>::empty());
    while i < values.len()
        invariant
            i <= values.len(),
            items == json::json_list(values@),
            items.len() == values.len(),
            forall|j: int| 0 <= j < values.len() ==> #[trigger] items[j] == values[j]@,
            list::each(items.take(i as int), number_fn(bad)) == Ok::<Seq<u64>, Fault>(out@),
        decreases values.len() - i,
    {
        proof {
            list::lemma_each_step(items, number_fn(bad), i as int);
        }
        match values[i].as_u64() {
            None => {
                proof {
                    list::lemma_each_stops(items, number_fn(bad), i + 1);
                }
                return None;
            },
            Some(n) => {
                out.push(n);
            },
        }
        i += 1;
    }
    assert(items.take(values.len() as int) =~= items);
    Some(out)
}

impl DaemonRpc {
    /// Asks for the output indexes of a transaction.
    pub fn o_indexes_request(&self, txid: &[u8; 32]) -> (r: Request)
        ensures
            r@ == rpc_call(
                self.url@,
                "get_o_indexes"@,
                JsonView::Object(seq![("txid"@, JsonView::Str(bytes::hex_text(txid@)))]),
            ),
    {
        self.post("get_o_indexes", hex_field("txid", txid))
    }

    /// get_o_indexes → the RingCT output indexes of a transaction.
    pub fn o_indexes_(reply: &Json) -> (r: Result<Vec<u64>, RpcError>)
        ensures
            match r {
                Ok(v) => output_indexes_in(reply@) == Ok::<Seq<u64>, Fault>(v@),
                Err(e) => output_indexes_in(reply@) == Err::<Seq<u64>, Fault>(e@),
            },
    {
        match post_result("get_o_indexes", reply) {
            Err(e) => Err(e),
            Ok(res) => match res.array_at("o_indexes") {
                None => Err(RpcError::NoOutputIndexes),
                Some(v) => match numbers(v, Ghost(Fault::BadOutputIndex)) {
                    None => Err(RpcError::BadOutputIndex),
                    Some(n) => Ok(n),
                },
            },
        }
    }

    /// Asks for the cumulative distribution of the RingCT outputs over a range of heights.
    pub fn distribution_request(&self, from: usize, to: usize) -> (r: Request)
        ensures
            r@ == distribution_call(self.url@, from, to),
    {
        let zero: Json = Json::Number(0);
        assert(zero@ == JsonView::Number(0));
        let mut amounts: Vec<Json> = Vec::new();
        amounts.push(zero);
        let mut fields: Vec<(String, Json)> = Vec::new();
        push_field(&mut fields, "amounts", Json::Array(amounts));
        push_field(&mut fields, "cumulative", Json::Bool(true));
        push_field(&mut fields, "from_height", Json::Number(from as u64));
        push_field(&mut fields, "to_height", Json::Number(to as u64));
        proof {
            json::lemma_json_list(amounts@);
            assert(json::json_list(amounts@) =~= seq![JsonView::Number(0)]);
            assert(json::json_fields(fields@) =~= distribution_params(from, to)->Object_0);
        }
        self.post("get_output_distribution", Json::Object(fields))
    }

    /// get_output_distribution (cumulative) for the RingCT outputs over a range.
    pub fn distribution_(reply: &Json) -> (r: Result<Vec<u64>, RpcError>)
        ensures
            match r {
                Ok(v) => distribution_in(reply@) == Ok::<Seq<u64>, Fault>(v@),
                Err(e) => distribution_in(reply@) == Err::<Seq<u64>, Fault>(e@),
            },
    {
        let res: &Json = match post_result("get_output_distribution", reply) {
            Err(e) => {
                return Err(e);
            },
            Ok(res) => res,
        };
        let list: Option<&Vec<Json>> = match res.array_at("distributions") {
            None => None,
            Some(d) => {
                proof {
                    json::lemma_json_list(d@);
                }
                if d.len() == 0 {
                    None
                } else {
                    d[0].array_at("distribution")
                }
            },
        };
        match list {
            None => Err(RpcError::BadDistribution),
            Some(v) => match numbers(v, Ghost(Fault::BadDistributionValue)) {
                None => Err(RpcError::BadDistributionValue),
                Some(n) => Ok(n),
            },
        }
    }
}

/// The parameters of a request for the output distribution.
pub open spec fn distribution_params(from: usize, to: usize) -> JsonView {
    JsonView::Object(
        seq![
            ("amounts"@, JsonView::Array(seq![JsonView::Number(0)])),
            ("cumulative"@, JsonView::Bool(true)),
            ("from_height"@, JsonView::Number(from as u64)),
            ("to_height"@, JsonView::Number(to as u64)),
        ],
    )
}

/// A request for the output distribution.
pub open spec fn distribution_call(url: Seq<char>, from: usize, to: usize) -> RequestView {
    rpc_call(url, "get_output_distribution"@, distribution_params(from, to))
}

// ---------------------------------------------------------------------------
// Ranges
// ---------------------------------------------------------------------------

/// One end of a range of block heights.
#[derive(Clone, Copy, Debug, PartialEq, Eq, Structural)]
pub enum RangeBound {
    Included(usize),
    Excluded(usize),
    Unbounded,
}

/// The first and the last height of a range. A range that ends before height
/// zero is taken to end there.
pub fn range_bounds(start: RangeBound, end: RangeBound) -> (r: (usize, usize))
    requires
        start != RangeBound::Excluded(usize::MAX),
    ensures
        r.0 == match start {
            RangeBound::Included(n) => n as int,
            RangeBound::Excluded(n) => n + 1,
            RangeBound::Unbounded => 0,
        },
        r.1 == match end {
            RangeBound::Included(n) => n as int,
            RangeBound::Excluded(n) => if n == 0 {
                0
            } else {
                n - 1
            },
            RangeBound::Unbounded => usize::MAX as int,
        },
{
    let from: usize = match start {
        RangeBound::Included(n) => n,
        RangeBound::Excluded(n) => n + 1,
        RangeBound::Unbounded => 0,
    };
    let to: usize = match end {
        RangeBound::Included(n) => n,
        RangeBound::Excluded(n) => n.saturating_sub(1),
        RangeBound::Unbounded => usize::MAX,
    };
    (from, to)
}

} // verus!
