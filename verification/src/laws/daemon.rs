//! Laws of what the daemon is asked, and of what its replies say.
use vstd::prelude::*;

use crate::bytes;
use crate::chain::{self, BlockView, FullTxView, PointError, PrunedTxView};
use crate::fetch::{self, FetchView, FetchedView};
use crate::json::{self, Json, JsonView};
use crate::list;
use crate::outs::{self, OutInfo, RingCtOutput, RingCtOutputView, UnlockedOutput};
use crate::relay::{self, Fees};
use crate::rpc::{self, Fault, HashedTx, RawTx, RawTxView, Request, RpcError};
use crate::scannable;

verus! {

// ---------------------------------------------------------------------------
// JSON
// ---------------------------------------------------------------------------

/// The field with a name is the first one of that name.
pub proof fn law_first_field_counts(fields: Seq<(Seq<char>, JsonView)>, i: int)
    requires
        0 <= i < fields.len(),
        forall|j: int| 0 <= j < i ==> (#[trigger] fields[j]).0 != fields[i].0,
    ensures
        JsonView::Object(fields).get(fields[i].0) == Some(fields[i].1),
        JsonView::Object(fields).at(fields[i].0) == fields[i].1,
    decreases fields.len(),
{
    if i > 0 {
        let rest = fields.skip(1);
        assert(rest[i - 1] == fields[i]);
        assert(fields[0].0 != fields[i].0);
        assert forall|j: int| 0 <= j < i - 1 implies (#[trigger] rest[j]).0 != rest[i - 1].0 by {
            assert(rest[j] == fields[j + 1]);
        }
        law_first_field_counts(rest, i - 1);
    }
}

/// A name that no field has is the name of none, and only objects have fields.
pub proof fn law_no_other_field(fields: Seq<(Seq<char>, JsonView)>, name: Seq<char>, v: JsonView)
    requires
        forall|j: int| 0 <= j < fields.len() ==> (#[trigger] fields[j]).0 != name,
    ensures
        JsonView::Object(fields).get(name) is None,
        JsonView::Object(fields).at(name) == JsonView::Null,
        !(v is Object) ==> v.get(name) is None,
    decreases fields.len(),
{
    if fields.len() > 0 {
        let rest = fields.skip(1);
        assert(fields[0].0 != name);
        assert forall|j: int| 0 <= j < rest.len() implies (#[trigger] rest[j]).0 != name by {
            assert(rest[j] == fields[j + 1]);
        }
        law_no_other_field(rest, name, v);
    }
}

/// Values are written as they are: a number in decimal, any other number as it
/// came, the elements of a list in order with commas between them.
pub proof fn law_values_are_written(n: u64, s: Seq<char>, v: JsonView, values: Seq<JsonView>)
    requires
        values.len() > 0,
    ensures
        JsonView::Number(n).written() == crate::text::decimal(n as nat),
        JsonView::OtherNumber(s).written() == s,
        JsonView::Str(s).written() == json::json_quoted(s),
        JsonView::Array(seq![v]).written() == "["@ + v.written() + "]"@,
        JsonView::Object(seq![(s, v)]).written() == "{"@ + (json::json_quoted(s) + ":"@
            + v.written()) + "}"@,
        JsonView::Array(values.push(v)).written() == "["@ + (json::list_written(values) + ","@
            + v.written()) + "]"@,
{
    reveal_with_fuel(json::list_written, 2);
    reveal_with_fuel(json::fields_written, 2);
    assert(seq![v].last() == v);
    assert(seq![(s, v)].last() == (s, v));
    assert(values.push(v).drop_last() =~= values);
}

/// Fields are written in order with commas between them, each with its name.
pub proof fn law_fields_are_written(
    fields: Seq<(Seq<char>, JsonView)>,
    name: Seq<char>,
    v: JsonView,
)
    requires
        fields.len() > 0,
    ensures
        JsonView::Object(fields.push((name, v))).written() == "{"@ + (json::fields_written(fields)
            + ","@ + (json::json_quoted(name) + ":"@ + v.written())) + "}"@,
        JsonView::Object(Seq::empty()).written() == "{"@ + "}"@,
        JsonView::Array(Seq::empty()).written() == "["@ + "]"@,
        JsonView::Null.written() == "null"@,
        JsonView::Bool(true).written() == "true"@,
        JsonView::Bool(false).written() == "false"@,
{
    let all = fields.push((name, v));
    assert(all.drop_last() =~= fields);
    assert(all.last() == (name, v));
    assert("{"@ + Seq::<char>::empty() =~= "{"@);
    assert("["@ + Seq::<char>::empty() =~= "["@);
}

/// What a JSON value says, it says as it is.
pub proof fn law_json_says_what_it_is(
    n: u64,
    b: bool,
    s: String,
    list: Vec<Json>,
    fields: Vec<(String, Json)>,
)
    ensures
        Json::Null@ == JsonView::Null,
        Json::Bool(b)@ == JsonView::Bool(b),
        Json::Number(n)@ == JsonView::Number(n),
        Json::OtherNumber(s)@ == JsonView::OtherNumber(s@),
        Json::Str(s)@ == JsonView::Str(s@),
        Json::Array(list)@ matches JsonView::Array(v) && v.len() == list@.len() && forall|i: int|
            0 <= i < v.len() ==> #[trigger] v[i] == list@[i]@,
        Json::Object(fields)@ matches JsonView::Object(v) && v.len() == fields@.len() && forall|
            i: int,
        |
            0 <= i < v.len() ==> #[trigger] v[i] == (fields@[i].0@, fields@[i].1@),
{
    json::lemma_json_list(list@);
    json::lemma_json_fields(fields@);
}

/// A result says what is stated of it only where it is that: a value with what it
/// says, or an error with what it says.
pub proof fn law_results_say_what_is_stated<T: View>(
    r: Result<T, RpcError>,
    v: Result<Vec<T>, RpcError>,
    one: Result<T::V, Fault>,
    all: Result<Seq<T::V>, Fault>,
)
    ensures
        rpc::says(r, one) ==> (r is Ok <==> one is Ok),
        rpc::says(r, one) && r is Ok ==> one->Ok_0 == r->Ok_0@,
        rpc::says(r, one) && r is Err ==> one->Err_0 == r->Err_0@,
        rpc::says_list(v, all) ==> (v is Ok <==> all is Ok),
        rpc::says_list(v, all) && v is Ok ==> all->Ok_0.len() == v->Ok_0@.len() && forall|i: int|
            0 <= i < v->Ok_0@.len() ==> #[trigger] all->Ok_0[i] == v->Ok_0@[i]@,
        rpc::says_list(v, all) && v is Err ==> all->Err_0 == v->Err_0@,
{
}

// ---------------------------------------------------------------------------
// Requests
// ---------------------------------------------------------------------------

/// What a request says, its parts say.
pub proof fn law_request_says_its_parts(q: Request)
    ensures
        q@.url == q.url@,
        q@.body == q.body@,
{
}

/// A call of the `/json_rpc` map goes there, and names its method and parameters.
pub proof fn law_rpc_call_says(url: Seq<char>, method: Seq<char>, params: JsonView)
    ensures
        rpc::rpc_call(url, method, params).url == url + "/json_rpc"@,
        rpc::rpc_call(url, method, params).body.at("jsonrpc"@) == JsonView::Str("2.0"@),
        rpc::rpc_call(url, method, params).body.at("id"@) == JsonView::Number(0),
        rpc::rpc_call(url, method, params).body.at("method"@) == JsonView::Str(method),
        rpc::rpc_call(url, method, params).body.at("params"@) == params,
{
    reveal_strlit("jsonrpc");
    reveal_strlit("id");
    reveal_strlit("method");
    reveal_strlit("params");
    let fields = rpc::rpc_call(url, method, params).body->Object_0;
    assert("jsonrpc"@.len() == 7 && "id"@.len() == 2 && "method"@.len() == 6 && "params"@.len() == 6);
    assert("method"@[0] != "params"@[0]);
    law_first_field_counts(fields, 0);
    law_first_field_counts(fields, 1);
    law_first_field_counts(fields, 2);
    law_first_field_counts(fields, 3);
}

/// The request for the block at a height names that height.
pub proof fn law_block_is_asked_by_height(url: Seq<char>, height: usize)
    ensures
        fetch::block_call(url, height).url == url + "/json_rpc"@,
        fetch::block_call(url, height).body.at("method"@) == JsonView::Str("get_block"@),
        fetch::block_call(url, height).body.at("params"@).at("height"@) == JsonView::Number(
            height as u64,
        ),
{
    let params = JsonView::Object(seq![("height"@, JsonView::Number(height as u64))]);
    law_rpc_call_says(url, "get_block"@, params);
    law_first_field_counts(params->Object_0, 0);
}

/// The request for transactions names their hashes, all of them, in order, and
/// says whether they are to be pruned.
pub proof fn law_transactions_are_asked_by_hash(
    url: Seq<char>,
    hashes: Seq<Seq<u8>>,
    prune: bool,
)
    ensures
        ({
            let q = rpc::txs_call(url, hashes, prune);
            let names = q.body.at("txs_hashes"@).elements();
            &&& q.url == url + "/get_transactions"@
            &&& names is Some
            &&& names->0.len() == hashes.len()
            &&& forall|i: int|
                0 <= i < hashes.len() ==> (#[trigger] names->0[i]).text() is Some
                    && bytes::hex_decoded_text(names->0[i].text()->0) == Ok::<
                    Seq<u8>,
                    bytes::HexError,
                >(hashes[i])
            &&& q.body.at("prune"@) == JsonView::Bool(prune)
            &&& q.body.at("split"@) == JsonView::Bool(true)
        }),
{
    reveal_strlit("txs_hashes");
    reveal_strlit("prune");
    reveal_strlit("split");
    let q = rpc::txs_call(url, hashes, prune);
    let fields = q.body->Object_0;
    assert("prune"@[0] != "split"@[0]);
    law_first_field_counts(fields, 0);
    law_first_field_counts(fields, 1);
    law_first_field_counts(fields, 2);
    let names = q.body.at("txs_hashes"@).elements()->0;
    assert forall|i: int| 0 <= i < hashes.len() implies (#[trigger] names[i]).text() is Some
        && bytes::hex_decoded_text(names[i].text()->0) == Ok::<Seq<u8>, bytes::HexError>(
        hashes[i],
    ) by {
        bytes::law_hex_reads_back(hashes[i]);
    }
}

/// The request for outputs names their indexes, all of them, in order, and asks
/// for their transactions.
pub proof fn law_outputs_are_asked_by_index(url: Seq<char>, indexes: Seq<u64>)
    ensures
        ({
            let q = outs::outs_call(url, indexes);
            let asked = q.body.at("outputs"@).elements();
            &&& q.url == url + "/get_outs"@
            &&& asked is Some
            &&& asked->0.len() == indexes.len()
            &&& forall|i: int|
                0 <= i < indexes.len() ==> (#[trigger] asked->0[i]).at("index"@)
                    == JsonView::Number(indexes[i]) && asked->0[i].at("txid"@) == JsonView::Bool(
                    true,
                )
        }),
{
    reveal_strlit("index");
    reveal_strlit("txid");
    let q = outs::outs_call(url, indexes);
    assert("index"@.len() != "txid"@.len());
    law_first_field_counts(q.body->Object_0, 0);
    let asked = q.body.at("outputs"@).elements()->0;
    assert forall|i: int| 0 <= i < indexes.len() implies (#[trigger] asked[i]).at("index"@)
        == JsonView::Number(indexes[i]) && asked[i].at("txid"@) == JsonView::Bool(true) by {
        let fields = asked[i]->Object_0;
        law_first_field_counts(fields, 0);
        law_first_field_counts(fields, 1);
    }
}

/// The request for the distribution asks for the RingCT outputs, cumulatively,
/// over the given heights.
pub proof fn law_distribution_is_asked_over_a_range(url: Seq<char>, from: usize, to: usize)
    ensures
        ({
            let q = rpc::distribution_call(url, from, to);
            let params = q.body.at("params"@);
            &&& q.url == url + "/json_rpc"@
            &&& q.body.at("method"@) == JsonView::Str("get_output_distribution"@)
            &&& params.at("amounts"@).elements() == Some(seq![JsonView::Number(0)])
            &&& params.at("cumulative"@) == JsonView::Bool(true)
            &&& params.at("from_height"@) == JsonView::Number(from as u64)
            &&& params.at("to_height"@) == JsonView::Number(to as u64)
        }),
{
    reveal_strlit("amounts");
    reveal_strlit("cumulative");
    reveal_strlit("from_height");
    reveal_strlit("to_height");
    let params = rpc::distribution_params(from, to);
    law_rpc_call_says(url, "get_output_distribution"@, params);
    let fields = params->Object_0;
    assert("amounts"@.len() == 7 && "cumulative"@.len() == 10);
    assert("from_height"@.len() == 11 && "to_height"@.len() == 9);
    law_first_field_counts(fields, 0);
    law_first_field_counts(fields, 1);
    law_first_field_counts(fields, 2);
    law_first_field_counts(fields, 3);
}

/// The transaction that is handed to the daemon is the one given, byte for byte.
pub proof fn law_published_bytes_read_back(url: Seq<char>, blob: Seq<u8>)
    ensures
        ({
            let q = relay::publish_call(url, blob);
            let hex = q.body.at("tx_as_hex"@).text();
            &&& q.url == url + "/send_raw_transaction"@
            &&& hex is Some
            &&& bytes::hex_decoded_text(hex->0) == Ok::<Seq<u8>, bytes::HexError>(blob)
        }),
{
    law_first_field_counts(relay::publish_call(url, blob).body->Object_0, 0);
    bytes::law_hex_reads_back(blob);
}

// ---------------------------------------------------------------------------
// Replies
// ---------------------------------------------------------------------------

/// A reply is refused exactly where it carries an error, and then with that error;
/// otherwise its result is what it carries.
pub proof fn law_errors_of_replies_count(call: Seq<char>, reply: JsonView, v: JsonView)
    ensures
        reply.get("error"@) == Some(v) ==> {
            &&& rpc::rpc_result(call, reply) == Err::<JsonView, Fault>(
                Fault::Refused { call, error: v },
            )
            &&& rpc::uri_result(call, reply) == Err::<JsonView, Fault>(
                Fault::Refused { call, error: v },
            )
        },
        rpc::rpc_result(call, reply) == Ok::<JsonView, Fault>(v) <==> reply.get("error"@) is None
            && reply.get("result"@) == Some(v),
        reply.get("error"@) is None && reply.get("result"@) is None ==> rpc::rpc_result(call, reply)
            == Err::<JsonView, Fault>(Fault::NoResult { call }),
        reply.get("error"@) is None ==> rpc::uri_result(call, reply) == Ok::<JsonView, Fault>(reply),
{
}

/// A reply with a result and no error.
pub open spec fn replies(reply: JsonView, res: JsonView) -> bool {
    reply.get("error"@) is None && reply.get("result"@) == Some(res)
}

/// The latest block is the one before the count of blocks.
pub proof fn law_latest_is_before_the_count(reply: JsonView, res: JsonView, count: u64)
    requires
        replies(reply, res),
        res.at("count"@) == JsonView::Number(count),
        count <= usize::MAX,
    ensures
        rpc::latest_block(reply) matches Ok(n) && (count > 0 ==> n + 1 == count) && (count == 0
            ==> n == 0),
{
}

/// The block of a reply is the one whose bytes it carries.
pub proof fn law_block_reply_is_read(reply: JsonView, res: JsonView, blob: Seq<u8>)
    requires
        replies(reply, res),
        res.at("blob"@) == JsonView::Str(bytes::hex_text(blob)),
    ensures
        match chain::block_read(blob) {
            Ok(read) => rpc::block_in(reply) matches Ok(b) && b.blob == blob && b.number == read.0
                && b.transactions == read.2,
            Err(m) => rpc::block_in(reply) == Err::<BlockView, Fault>(Fault::BlockParse(m)),
        },
{
    bytes::law_hex_reads_back(blob);
}

/// The hash of a block header is the one that its reply carries.
pub proof fn law_hash_reply_is_read(
    reply: JsonView,
    res: JsonView,
    header: JsonView,
    hash: Seq<u8>,
)
    requires
        replies(reply, res),
        res.at("block_header"@) == header,
        header.at("hash"@) == JsonView::Str(bytes::hex_text(hash)),
        hash.len() == 32,
    ensures
        rpc::block_hash_in(reply) == Ok::<Seq<u8>, Fault>(hash),
{
    bytes::law_hex_reads_back(hash);
}

/// The bytes of an entry: those in `as_hex`, or those in `pruned_as_hex` where the
/// other is missing or empty.
pub open spec fn entry_holds(entry: JsonView, data: Seq<u8>) -> bool {
    match entry.at("as_hex"@) {
        JsonView::Str(full) => if full.len() > 0 {
            bytes::hex_decoded_text(full) == Ok::<Seq<u8>, bytes::HexError>(data)
        } else {
            holds_pruned(entry, data)
        },
        _ => holds_pruned(entry, data),
    }
}

/// The bytes of an entry in `pruned_as_hex`; none where that is missing.
pub open spec fn holds_pruned(entry: JsonView, data: Seq<u8>) -> bool {
    match entry.at("pruned_as_hex"@) {
        JsonView::Str(hex) => bytes::hex_decoded_text(hex) == Ok::<Seq<u8>, bytes::HexError>(data),
        _ => data.len() == 0,
    }
}

/// The prunable hash of an entry; none where it is missing or empty.
pub open spec fn entry_hash(entry: JsonView, hash: Option<Seq<u8>>) -> bool {
    match entry.at("prunable_hash"@) {
        JsonView::Str(hex) => if hex.len() > 0 {
            hash matches Some(h) && h.len() == 32 && bytes::hex_decoded_text(hex) == Ok::<
                Seq<u8>,
                bytes::HexError,
            >(h)
        } else {
            hash is None
        },
        _ => hash is None,
    }
}

proof fn lemma_empty_hex()
    ensures
        bytes::hex_decoded_text(Seq::<char>::empty()) == Ok::<Seq<u8>, bytes::HexError>(
            Seq::<u8>::empty(),
        ),
{
    bytes::law_hex_reads_back(Seq::<u8>::empty());
    assert(bytes::hex_text(Seq::<u8>::empty()) =~= Seq::<char>::empty());
}

/// A transaction is foreign exactly where its entry names another hash, or where
/// its bytes tell another one.
pub proof fn law_foreign_transactions_are_told(
    hash: Seq<u8>,
    named: Seq<u8>,
    entry: JsonView,
    told: Option<Seq<u8>>,
)
    ensures
        told matches Some(h) && h != hash ==> rpc::is_foreign(hash, entry, told),
        entry.at("tx_hash"@) == JsonView::Str(bytes::hex_text(named)) && named != hash
            ==> rpc::is_foreign(hash, entry, told),
        entry.at("tx_hash"@) == JsonView::Str(bytes::hex_text(hash)) && (told is None || told
            == Some(hash)) ==> !rpc::is_foreign(hash, entry, told),
        entry.at("tx_hash"@) is Null && (told is None || told == Some(hash)) ==> !rpc::is_foreign(
            hash,
            entry,
            told,
        ),
{
    bytes::law_hex_reads_back(hash);
    bytes::law_hex_reads_back(named);
}

/// Each transaction of a reply is what the entry at its place holds, and was asked
/// for by the hash at that place.
pub proof fn law_transactions_are_their_entries(
    hashes: Seq<Seq<u8>>,
    reply: JsonView,
    entries: Seq<JsonView>,
    i: int,
)
    requires
        reply.at("txs"@) == JsonView::Array(entries),
        rpc::raw_txs_in(hashes, Some(reply)) is Ok,
        0 <= i < hashes.len(),
    ensures
        entries.len() == hashes.len(),
        rpc::raw_txs_in(hashes, Some(reply))->Ok_0.len() == hashes.len(),
        rpc::raw_txs_in(hashes, Some(reply))->Ok_0[i].hash == hashes[i],
        entry_holds(entries[i], rpc::raw_txs_in(hashes, Some(reply))->Ok_0[i].bytes),
        entry_hash(entries[i], rpc::raw_txs_in(hashes, Some(reply))->Ok_0[i].prunable_hash),
{
    lemma_empty_hex();
    let items = rpc::paired(hashes, entries);
    list::law_each_is_elementwise(items, rpc::raw_tx_fn());
    let t = rpc::raw_txs_in(hashes, Some(reply))->Ok_0[i];
    assert(rpc::raw_tx_fn()(items[i]) == Ok::<RawTxView, Fault>(t));
    assert(items[i] == (hashes[i], entries[i]));
}

/// A reply with an entry for every hash, each of which holds bytes that no hash
/// speaks against, is taken.
pub proof fn law_good_transactions_are_taken(
    hashes: Seq<Seq<u8>>,
    reply: JsonView,
    entries: Seq<JsonView>,
    data: Seq<Seq<u8>>,
    prunable: Seq<Option<Seq<u8>>>,
)
    requires
        reply.get("error"@) is None,
        reply.at("txs"@) == JsonView::Array(entries),
        entries.len() == hashes.len(),
        data.len() == hashes.len(),
        prunable.len() == hashes.len(),
        forall|i: int|
            0 <= i < hashes.len() ==> {
                &&& entry_holds(#[trigger] entries[i], data[i])
                &&& entry_hash(entries[i], prunable[i])
                &&& entries[i].at("tx_hash"@) == JsonView::Str(bytes::hex_text(hashes[i]))
                    || entries[i].at("tx_hash"@) is Null
                &&& chain::told_hash(data[i], prunable[i]) matches Some(h) ==> h == hashes[i]
            },
    ensures
        rpc::raw_txs_in(hashes, Some(reply)) is Ok,
        forall|i: int|
            0 <= i < hashes.len() ==> (#[trigger] rpc::raw_txs_in(hashes, Some(reply))->Ok_0[i])
                == (RawTxView { hash: hashes[i], bytes: data[i], prunable_hash: prunable[i] }),
{
    lemma_empty_hex();
    let items = rpc::paired(hashes, entries);
    list::law_each_is_elementwise(items, rpc::raw_tx_fn());
    assert forall|i: int| 0 <= i < items.len() implies rpc::raw_tx_fn()(#[trigger] items[i]) == Ok::<
        RawTxView,
        Fault,
    >(RawTxView { hash: hashes[i], bytes: data[i], prunable_hash: prunable[i] }) by {
        assert(entry_holds(entries[i], data[i]));
        bytes::law_hex_reads_back(hashes[i]);
        if data[i].len() == 0 {
            assert(data[i] =~= Seq::<u8>::empty());
        }
        assert(items[i] == (hashes[i], entries[i]));
        assert(bytes::hex_decoded_text(rpc::tx_hex(entries[i])) == Ok::<Seq<u8>, bytes::HexError>(
            data[i],
        ));
        assert(rpc::prunable_hash_in(entries[i]) == Ok::<Option<Seq<u8>>, Fault>(prunable[i]));
    }
    if hashes.len() > 0 {
        assert(rpc::raw_txs_in(hashes, Some(reply)) is Ok);
        assert forall|i: int| 0 <= i < hashes.len() implies (#[trigger] rpc::raw_txs_in(
            hashes,
            Some(reply),
        )->Ok_0[i]) == (RawTxView {
            hash: hashes[i],
            bytes: data[i],
            prunable_hash: prunable[i],
        }) by {
            assert(rpc::raw_tx_fn()(items[i]) == Ok::<RawTxView, Fault>(
                rpc::raw_txs_in(hashes, Some(reply))->Ok_0[i],
            ));
        }
    }
}

/// Pruned transactions come in the order of the hashes, each read from the bytes
/// that were handed out for its hash, and no other.
pub proof fn law_pruned_transactions_keep_their_order(
    hashes: Seq<Seq<u8>>,
    reply: Option<JsonView>,
    i: int,
)
    requires
        rpc::pruned_txs_in(hashes, reply) is Ok,
        0 <= i < hashes.len(),
    ensures
        rpc::raw_txs_in(hashes, reply) is Ok,
        rpc::pruned_txs_in(hashes, reply)->Ok_0.len() == hashes.len(),
        rpc::raw_txs_in(hashes, reply)->Ok_0[i].hash == hashes[i],
        chain::pruned_tx_of(rpc::raw_txs_in(hashes, reply)->Ok_0[i].bytes) == Ok::<
            PrunedTxView,
            Seq<char>,
        >(rpc::pruned_txs_in(hashes, reply)->Ok_0[i]),
{
    let raw = rpc::raw_txs_in(hashes, reply)->Ok_0;
    rpc::law_transactions_are_those_asked_for(hashes, reply, i);
    list::law_each_is_elementwise(raw, rpc::pruned_tx_fn());
    assert(rpc::pruned_tx_fn()(raw[i]) == Ok::<PrunedTxView, Fault>(
        rpc::pruned_txs_in(hashes, reply)->Ok_0[i],
    ));
}

/// Pruned transactions come where all the bytes can be read, and not where some cannot.
pub proof fn law_readable_transactions_are_read(
    hashes: Seq<Seq<u8>>,
    reply: Option<JsonView>,
)
    requires
        rpc::raw_txs_in(hashes, reply) is Ok,
    ensures
        rpc::pruned_txs_in(hashes, reply) is Ok <==> forall|i: int|
            0 <= i < hashes.len() ==> chain::pruned_tx_of(
                (#[trigger] rpc::raw_txs_in(hashes, reply)->Ok_0[i]).bytes,
            ) is Ok,
{
    let raw = rpc::raw_txs_in(hashes, reply)->Ok_0;
    if hashes.len() > 0 {
        rpc::law_transactions_are_those_asked_for(hashes, reply, 0);
    }
    list::law_each_is_elementwise(raw, rpc::pruned_tx_fn());
    assert forall|i: int| 0 <= i < raw.len() implies (rpc::pruned_tx_fn()(#[trigger] raw[i]) is Ok
        <==> chain::pruned_tx_of(raw[i].bytes) is Ok) by {}
}

/// A transaction with its prunable hash has that of its entry, and one exactly
/// where it is not of version one.
pub proof fn law_prunable_hashes_fit(t: RawTxView)
    ensures
        rpc::hashed_tx_fn()(t) matches Ok(x) ==> {
            &&& x.prunable_hash == t.prunable_hash
            &&& chain::pruned_tx_of(t.bytes) == Ok::<PrunedTxView, Seq<char>>(x.tx)
            &&& (x.tx.version == 1 <==> x.prunable_hash is None)
        },
        chain::pruned_tx_of(t.bytes) matches Ok(tx) && (tx.version == 1 <==> t.prunable_hash is None)
            ==> rpc::hashed_tx_fn()(t) is Ok,
        rpc::full_tx_fn()(t) matches Ok(x) ==> chain::full_tx_of(t.bytes) == Ok::<
            FullTxView,
            Seq<char>,
        >(x),
        chain::full_tx_of(t.bytes) is Ok ==> rpc::full_tx_fn()(t) is Ok,
{
}

/// The numbers of a reply are those that it lists, all of them, in order.
pub proof fn law_listed_numbers_are_read(
    reply: JsonView,
    res: JsonView,
    listed: Seq<JsonView>,
    numbers: Seq<u64>,
)
    requires
        replies(reply, res),
        listed.len() == numbers.len(),
        forall|i: int| 0 <= i < numbers.len() ==> #[trigger] listed[i] == JsonView::Number(numbers[i]),
    ensures
        res.at("o_indexes"@) == JsonView::Array(listed) ==> rpc::output_indexes_in(reply) == Ok::<
            Seq<u64>,
            Fault,
        >(numbers),
        forall|others: Seq<JsonView>|
            res.at("distributions"@) == JsonView::Array(others) && others.len() > 0
                && #[trigger] others[0].at("distribution"@) == JsonView::Array(listed)
                ==> rpc::distribution_in(reply) == Ok::<Seq<u64>, Fault>(numbers),
{
    lemma_numbers(listed, numbers, Fault::BadOutputIndex);
    lemma_numbers(listed, numbers, Fault::BadDistributionValue);
}

proof fn lemma_numbers(listed: Seq<JsonView>, numbers: Seq<u64>, bad: Fault)
    requires
        listed.len() == numbers.len(),
        forall|i: int| 0 <= i < numbers.len() ==> #[trigger] listed[i] == JsonView::Number(numbers[i]),
    ensures
        list::each(listed, rpc::number_fn(bad)) == Ok::<Seq<u64>, Fault>(numbers),
{
    let f = rpc::number_fn(bad);
    list::law_each_is_elementwise(listed, f);
    assert forall|i: int| 0 <= i < listed.len() implies f(#[trigger] listed[i]) == Ok::<u64, Fault>(
        numbers[i],
    ) by {}
    let out = list::each(listed, f)->Ok_0;
    assert forall|i: int| 0 <= i < numbers.len() implies out[i] == numbers[i] by {
        assert(f(listed[i]) == Ok::<u64, Fault>(out[i]));
    }
    assert(out =~= numbers);
}

/// A list with something else than a number in it is refused.
pub proof fn law_other_values_are_no_numbers(listed: Seq<JsonView>, i: int, bad: Fault)
    requires
        0 <= i < listed.len(),
        !(listed[i] is Number),
    ensures
        list::each(listed, rpc::number_fn(bad)) is Err,
{
    list::law_each_is_elementwise(listed, rpc::number_fn(bad));
    if list::each(listed, rpc::number_fn(bad)) is Ok {
        assert(rpc::number_fn(bad)(listed[i]) is Ok);
    }
}

// ---------------------------------------------------------------------------
// Ring members
// ---------------------------------------------------------------------------

/// The key, the mask and the transaction of an output are those of its entry, and
/// it is unlocked unless the entry says that it is not.
pub proof fn law_output_is_its_entry(
    o: JsonView,
    key: Seq<u8>,
    mask: Seq<u8>,
    txid: Seq<u8>,
)
    requires
        o.at("key"@) == JsonView::Str(bytes::hex_text(key)),
        o.at("mask"@) == JsonView::Str(bytes::hex_text(mask)),
        o.at("txid"@) == JsonView::Str(bytes::hex_text(txid)),
    ensures
        outs::out_in(o) matches Ok(x) && x.key == key && x.mask == mask && x.txid == txid && (
        x.unlocked <==> o.at("unlocked"@) != JsonView::Bool(false)),
{
    bytes::law_hex_reads_back(key);
    bytes::law_hex_reads_back(mask);
    bytes::law_hex_reads_back(txid);
}

/// The outputs of a reply are those of its entries, all of them, in order.
pub proof fn law_outputs_are_their_entries(
    indexes: Seq<u64>,
    reply: JsonView,
    entries: Seq<JsonView>,
    i: int,
)
    requires
        reply.at("outs"@) == JsonView::Array(entries),
        outs::outs_in(indexes, Some(reply)) is Ok,
        0 <= i < indexes.len(),
    ensures
        entries.len() == indexes.len(),
        outs::outs_in(indexes, Some(reply))->Ok_0.len() == indexes.len(),
        outs::out_in(entries[i]) == Ok::<outs::OutInfoView, Fault>(
            outs::outs_in(indexes, Some(reply))->Ok_0[i],
        ),
{
    list::law_each_is_elementwise(entries, outs::out_fn());
    assert(outs::out_fn()(entries[i]) == Ok::<outs::OutInfoView, Fault>(
        outs::outs_in(indexes, Some(reply))->Ok_0[i],
    ));
}

/// A reply with an entry for every index, each of which can be read, is taken.
pub proof fn law_good_outputs_are_taken(
    indexes: Seq<u64>,
    reply: JsonView,
    entries: Seq<JsonView>,
)
    requires
        reply.get("error"@) is None,
        reply.at("outs"@) == JsonView::Array(entries),
        entries.len() == indexes.len(),
        forall|i: int| 0 <= i < entries.len() ==> outs::out_in(#[trigger] entries[i]) is Ok,
    ensures
        outs::outs_in(indexes, Some(reply)) is Ok,
{
    list::law_each_is_elementwise(entries, outs::out_fn());
    assert forall|i: int| 0 <= i < entries.len() implies outs::out_fn()(
        #[trigger] entries[i],
    ) is Ok by {}
}

/// Of a ring member the key is the point of its key, and the commitment that of
/// its mask, wherever both are points; of a locked one neither is told.
pub proof fn law_ring_members_keep_key_and_commitment(o: outs::OutInfoView)
    requires
        o.key.len() == 32,
        o.mask.len() == 32,
        chain::canonical_point(o.key),
        chain::canonical_point(o.mask),
    ensures
        outs::unlocked_fn()(o) == Ok::<Option<(Seq<u8>, Seq<u8>)>, Fault>(
            if o.unlocked {
                Some((o.key, o.mask))
            } else {
                None
            },
        ),
        o.txid.len() == 32 ==> outs::ringct_fn()(o) == Ok::<RingCtOutputView, Fault>(
            RingCtOutputView {
                unlocked: o.unlocked,
                key: o.key,
                commitment: o.mask,
                transaction: o.txid,
            },
        ),
{
}

/// A ring member whose key or mask is no point is refused where it is looked at.
pub proof fn law_no_points_are_refused(o: outs::OutInfoView)
    requires
        chain::point_of(o.key) is Err || chain::point_of(o.mask) is Err,
    ensures
        outs::ringct_fn()(o) is Err,
        o.unlocked ==> outs::unlocked_fn()(o) is Err,
{
}

/// A point is read from exactly the 32 bytes of its canonical encoding.
pub proof fn law_points_are_their_encoding(data: Seq<u8>)
    ensures
        data.len() == 32 && chain::canonical_point(data) ==> chain::point_of(data) == Ok::<
            Seq<u8>,
            PointError,
        >(data),
        data.len() != 32 || !chain::canonical_point(data) ==> chain::point_of(data) is Err,
{
}

/// What these outputs and transactions say, their fields say.
pub proof fn law_daemon_values_say_their_fields(
    o: OutInfo,
    p: RingCtOutput,
    u: UnlockedOutput,
    t: RawTx,
    h: HashedTx,
)
    ensures
        o@.key == o.key@ && o@.mask == o.mask@ && o@.txid == o.txid@ && o@.unlocked == o.unlocked,
        p@.key == p.key@ && p@.commitment == p.commitment@,
        p@.transaction == p.transaction@ && p@.unlocked == p.unlocked,
        u.points matches Some(q) ==> u@ == Some((q.0@, q.1@)),
        u.points is None ==> u@ is None,
        t@.hash == t.hash@ && t@.bytes == t.bytes@,
        t.prunable_hash matches Some(q) ==> t@.prunable_hash == Some(q@),
        t.prunable_hash is None ==> t@.prunable_hash is None,
        h@.tx == h.tx@,
        h.prunable_hash matches Some(q) ==> h@.prunable_hash == Some(q@),
        h.prunable_hash is None ==> h@.prunable_hash is None,
{
}

// ---------------------------------------------------------------------------
// Fees and publishing
// ---------------------------------------------------------------------------

/// The rate per weight is the estimate per kB over 2048, rounded down, and never zero.
pub proof fn law_rate_is_the_estimate(reply: JsonView, res: JsonView, per_kb: u64)
    requires
        replies(reply, res),
        res.at("fee"@) == JsonView::Number(per_kb),
    ensures
        relay::fee_rate_in(reply) matches Ok(rate) && rate.mask == 2048 && rate.per_weight >= 1 && (
        per_kb >= 2048 ==> rate.per_weight * 2048 <= per_kb < (rate.per_weight + 1) * 2048) && (
        per_kb < 2048 ==> rate.per_weight == 1),
{
}

/// A bound refuses the rates above it and no others, and changes none.
pub proof fn law_rates_are_bounded(reply: JsonView, rate: Fees, bound: u64)
    requires
        relay::fee_rate_in(reply) == Ok::<Fees, Fault>(rate),
    ensures
        rate.per_weight <= bound ==> relay::bounded_fee_rate_in(reply, bound) == Ok::<Fees, Fault>(
            rate,
        ),
        rate.per_weight > bound ==> relay::bounded_fee_rate_in(reply, bound) == Err::<Fees, Fault>(
            Fault::InvalidFee,
        ),
        relay::MAX_PER_WEIGHT == 10_000,
{
}

/// A transaction is published exactly where the daemon says OK; otherwise its own
/// words say why.
pub proof fn law_only_ok_is_published(reply: JsonView)
    requires
        reply.get("error"@) is None,
    ensures
        relay::published_in(reply) is Ok <==> reply.at("status"@) == JsonView::Str("OK"@),
        relay::published_in(reply) matches Err(f) ==> f == (Fault::Rejected {
            status: reply.at("status"@).text(),
            reason: reply.at("reason"@),
        }),
{
}

// ---------------------------------------------------------------------------
// Ranges of blocks
// ---------------------------------------------------------------------------

/// A fetch starts at the first height of its range, with nothing fetched; an empty
/// range is done at once.
pub proof fn law_fetch_starts_at_the_first_height(start: usize, end: usize)
    ensures
        start <= end ==> fetch::fetch_started(start, end).next == Some(start),
        start > end ==> fetch::fetch_started(start, end).next is None,
        fetch::fetch_started(start, end).end == end,
        fetch::fetch_started(start, end).pending is None,
        fetch::fetch_started(start, end).fetched.len() == 0,
{
}

/// A fetch asks for the block at its height, and then for the transactions that the
/// block names.
pub proof fn law_fetch_asks_for_its_height(fetch: FetchView, url: Seq<char>, height: usize)
    requires
        fetch.next == Some(height),
    ensures
        fetch.pending is None ==> (fetch.asked(url) matches Some(q) && q.body.at("params"@).at(
            "height"@,
        ) == JsonView::Number(height as u64)),
        fetch.pending matches Some(b) ==> fetch.asked(url) == Some(
            rpc::txs_call(url, b.transactions, true),
        ),
{
    law_block_is_asked_by_height(url, height);
}

/// A reply with a block adds it, with its transactions where it names any, behind
/// those that came before it, and the fetch goes on at the next height.
pub proof fn law_fetch_adds_a_block(fetch: FetchView, height: usize, reply: JsonView)
    requires
        fetch.next == Some(height),
        height <= fetch.end,
    ensures
        fetch.told(reply) matches Ok(then) ==> {
            &&& then.end == fetch.end
            &&& then.pending is None ==> {
                let added = then.fetched.last();
                &&& then.fetched.len() == fetch.fetched.len() + 1
                &&& then.fetched.drop_last() == fetch.fetched
                &&& then.next == if height < fetch.end {
                    Some((height + 1) as usize)
                } else {
                    None
                }
                &&& fetch.pending matches Some(b) ==> added.block == b && rpc::pruned_txs_in(
                    b.transactions,
                    Some(reply),
                ) == Ok::<Seq<PrunedTxView>, Fault>(added.txs)
                &&& fetch.pending is None ==> rpc::block_in(reply) == Ok::<BlockView, Fault>(
                    added.block,
                ) && added.txs.len() == 0 && added.block.transactions.len() == 0
            }
            &&& then.pending matches Some(b) ==> {
                &&& fetch.pending is None
                &&& rpc::block_in(reply) == Ok::<BlockView, Fault>(b)
                &&& b.transactions.len() > 0
                &&& then.next == fetch.next
                &&& then.fetched == fetch.fetched
            }
        },
        fetch.pending is None ==> (fetch.told(reply) is Ok <==> rpc::block_in(reply) is Ok),
        fetch.pending matches Some(b) ==> (fetch.told(reply) is Ok <==> rpc::pruned_txs_in(
            b.transactions,
            Some(reply),
        ) is Ok),
{
    match fetch.told(reply) {
        Ok(then) => {
            if then.pending is None {
                assert(then.fetched.drop_last() =~= fetch.fetched);
            }
        },
        Err(_) => {},
    }
}

/// The blocks of a range are those at its heights, one for each, in order, each
/// with the transactions that it names.
pub proof fn law_range_holds_each_height(
    start: usize,
    end: usize,
    blocks: spec_fn(usize) -> JsonView,
    txs: spec_fn(Seq<Seq<u8>>) -> JsonView,
    i: int,
)
    requires
        start <= end,
        fetch::range_fetched(start, end, blocks, txs) is Ok,
        0 <= i <= end - start,
    ensures
        fetch::range_fetched(start, end, blocks, txs)->Ok_0.len() == end - start + 1,
        ({
            let f = fetch::range_fetched(start, end, blocks, txs)->Ok_0[i];
            &&& rpc::block_in(blocks((start + i) as usize)) == Ok::<BlockView, Fault>(f.block)
            &&& rpc::pruned_txs_in(f.block.transactions, Some(txs(f.block.transactions))) == Ok::<
                Seq<PrunedTxView>,
                Fault,
            >(f.txs)
        }),
{
    let all = fetch::heights(start, end);
    let at = fetch::fetched_at(blocks, txs);
    list::law_each_is_elementwise(all, at);
    let f = fetch::range_fetched(start, end, blocks, txs)->Ok_0[i];
    assert(all[i] == (start + i) as usize);
    assert(at(all[i]) == Ok::<FetchedView, Fault>(f));
    if f.block.transactions.len() == 0 {
        assert(rpc::pruned_txs_in(f.block.transactions, Some(txs(f.block.transactions)))->Ok_0
            =~= f.txs);
    }
}

/// The blocks of a range without their transactions are the same blocks.
pub proof fn law_blocks_alone_are_the_blocks(fetched: Seq<FetchedView>, i: int)
    requires
        0 <= i < fetched.len(),
    ensures
        fetch::blocks_alone(fetched).len() == fetched.len(),
        fetch::blocks_alone(fetched)[i] == fetched[i].block,
{
}

// ---------------------------------------------------------------------------
// Counting RingCT outputs
// ---------------------------------------------------------------------------

/// Transactions in a row make the outputs that they make alone, and one alone makes
/// all its outputs where it is of version two, and none otherwise.
pub proof fn law_outputs_add_up(a: Seq<PrunedTxView>, b: Seq<PrunedTxView>, t: PrunedTxView)
    ensures
        scannable::ringct_outputs(a + b) == scannable::ringct_outputs(a)
            + scannable::ringct_outputs(b),
        t.version == 2 ==> scannable::ringct_outputs(seq![t]) == t.outputs,
        t.version != 2 ==> scannable::ringct_outputs(seq![t]) == 0,
    decreases b.len(),
{
    reveal_with_fuel(scannable::ringct_outputs, 2);
    assert(seq![t].drop_last() =~= Seq::<PrunedTxView>::empty());
    assert(seq![t].last() == t);
    if b.len() == 0 {
        assert(a + b =~= a);
    } else {
        assert((a + b).drop_last() =~= a + b.drop_last());
        law_outputs_add_up(a, b.drop_last(), t);
    }
}

/// Serialized transactions make the outputs that they make alone, and so does a
/// serialized block with them.
pub proof fn law_serialized_outputs_add_up(a: Seq<Seq<u8>>, b: Seq<Seq<u8>>, t: Seq<u8>)
    ensures
        chain::tx_places(a + b) == chain::tx_places(a) + chain::tx_places(b),
        chain::pruned_read(t) matches Ok(read) ==> chain::tx_places(seq![t]) == if read.0 == 2 {
            read.1 as int
        } else {
            0
        },
        chain::block_read(t) matches Ok(read) ==> chain::block_places(t, a) == chain::tx_places(a)
            + if read.1.0 == 2 {
            read.1.1 as int
        } else {
            0
        },
    decreases b.len(),
{
    reveal_with_fuel(chain::tx_places, 2);
    assert(seq![t].drop_last() =~= Seq::<Seq<u8>>::empty());
    assert(seq![t].last() == t);
    if b.len() == 0 {
        assert(a + b =~= a);
    } else {
        assert((a + b).drop_last() =~= a + b.drop_last());
        law_serialized_outputs_add_up(a, b.drop_last(), t);
    }
}

/// A block makes the outputs of its transactions, and those of its miner
/// transaction where that is of version two; a chain of one block makes those.
pub proof fn law_block_makes_its_outputs(f: FetchedView)
    ensures
        f.block.miner_version == 2 ==> scannable::block_outputs(f.block, f.txs)
            == scannable::ringct_outputs(f.txs) + f.block.miner_outputs,
        f.block.miner_version != 2 ==> scannable::block_outputs(f.block, f.txs)
            == scannable::ringct_outputs(f.txs),
        scannable::ringct_total(seq![f]) == scannable::block_outputs(f.block, f.txs),
{
    reveal_with_fuel(scannable::ringct_total, 2);
    assert(seq![f].drop_last() =~= Seq::<FetchedView>::empty());
    assert(seq![f].last() == f);
}

/// The scanner takes the transactions in order, all but those of version one.
pub proof fn law_scanner_takes_in_order(a: Seq<PrunedTxView>, b: Seq<PrunedTxView>, t: PrunedTxView)
    ensures
        scannable::scannable_txs(a + b) == scannable::scannable_txs(a) + scannable::scannable_txs(b),
        t.version != 1 ==> scannable::scannable_txs(seq![t]) == seq![t],
        t.version == 1 ==> scannable::scannable_txs(seq![t]).len() == 0,
{
    let takes = |t: PrunedTxView| t.version != 1;
    Seq::filter_distributes_over_add(a, b, takes);
    reveal(Seq::filter);
    reveal_with_fuel(Seq::filter, 2);
    assert(seq![t].drop_last() =~= Seq::<PrunedTxView>::empty());
    assert(seq![t].last() == t);
    if t.version != 1 {
        assert(scannable::scannable_txs(seq![t]) =~= seq![t]);
    }
}

/// A block that is made ready is the block that was fetched, in its place, with the
/// transactions that the scanner takes.
pub proof fn law_ready_blocks_are_those_fetched(blocks: Seq<FetchedView>, before: nat, i: int)
    requires
        0 <= i < blocks.len(),
    ensures
        scannable::scannables(blocks, before).len() == blocks.len(),
        scannable::scannables(blocks, before)[i].block == blocks[i].block,
        scannable::scannables(blocks, before)[i].transactions == scannable::scannable_txs(
            blocks[i].txs,
        ),
{
}

/// The count that is known without asking is the one kept for just that height,
/// and none at all at height zero; the count before a block is that at the height
/// before it.
pub proof fn law_known_counts(height: usize, kept: usize, count: u64)
    ensures
        scannable::known_count(Some((height, count)), height) == Some(count),
        kept != height && height != 0 ==> scannable::known_count(Some((kept, count)), height) is None,
        height != 0 ==> scannable::known_count(None, height) is None,
        scannable::known_count(None, 0) == Some(0u64),
        height > 0 ==> scannable::height_before(height) + 1 == height,
        scannable::height_before(0) == 0,
{
}

/// The count that a cumulative distribution tells is its last number.
pub proof fn law_count_is_the_last(reply: JsonView, numbers: Seq<u64>)
    requires
        rpc::distribution_in(reply) == Ok::<Seq<u64>, Fault>(numbers),
    ensures
        numbers.len() > 0 ==> scannable::count_in(reply) == Ok::<u64, Fault>(
            numbers[numbers.len() - 1],
        ),
        numbers.len() == 0 ==> scannable::count_in(reply) == Ok::<u64, Fault>(0),
{
}

} // verus!
