use xmxx_companion::bytes::HexError;
use xmxx_companion::chain::PointError;
use xmxx_companion::json::Json;
use xmxx_companion::relay::MAX_PER_WEIGHT;
use xmxx_companion::rpc::{post_result, post_uri_result, DaemonRpc, RpcError};

fn obj(fields: Vec<(&str, Json)>) -> Json {
    Json::Object(fields.into_iter().map(|(k, v)| (k.to_string(), v)).collect())
}

fn text(s: &str) -> Json {
    Json::Str(s.to_string())
}

fn list(v: Vec<Json>) -> Json {
    Json::Array(v)
}

fn result(v: Json) -> Json {
    obj(vec![("id", Json::Number(0)), ("result", v)])
}

fn shown(j: &Json) -> String {
    format!("{j:?}")
}

/// The standard base point of the curve.
const BASE: &str = "5866666666666666666666666666666666666666666666666666666666666666";

#[test]
fn calls_of_the_json_rpc_map() {
    let d = DaemonRpc::new("http://node");
    let q = d.post("get_info", obj(vec![]));
    assert_eq!(q.url, "http://node/json_rpc");
    assert_eq!(
        shown(&q.body),
        shown(&obj(vec![
            ("jsonrpc", text("2.0")),
            ("id", Json::Number(0)),
            ("method", text("get_info")),
            ("params", obj(vec![])),
        ]))
    );
    assert!(d.ringct_at.is_none());
}

#[test]
fn calls_of_a_uri() {
    let d = DaemonRpc::new("http://node");
    let q = d.txs_request(&[[0xabu8; 32], [1u8; 32]], true).unwrap();
    assert_eq!(q.url, "http://node/get_transactions");
    assert_eq!(
        shown(&q.body),
        shown(&obj(vec![
            ("txs_hashes", list(vec![text(&"ab".repeat(32)), text(&"01".repeat(32))])),
            ("prune", Json::Bool(true)),
            ("split", Json::Bool(true)),
        ]))
    );
    assert!(d.txs_request(&[], true).is_none());
    let q = d.outs_request(&[7, 9]).unwrap();
    assert_eq!(q.url, "http://node/get_outs");
    assert_eq!(
        shown(&q.body),
        shown(&obj(vec![(
            "outputs",
            list(vec![
                obj(vec![("index", Json::Number(7)), ("txid", Json::Bool(true))]),
                obj(vec![("index", Json::Number(9)), ("txid", Json::Bool(true))]),
            ])
        )]))
    );
    assert!(d.outs_request(&[]).is_none());
}

#[test]
fn other_requests() {
    let d = DaemonRpc::new("u");
    let params = |q: xmxx_companion::rpc::Request| {
        (
            shown(q.body.get("method").unwrap()),
            shown(q.body.get("params").unwrap()),
        )
    };
    assert_eq!(params(d.latest_block_number_request()), (shown(&text("get_block_count")), shown(&obj(vec![]))));
    assert_eq!(
        params(d.block_by_number_request(5)),
        (shown(&text("get_block")), shown(&obj(vec![("height", Json::Number(5))])))
    );
    assert_eq!(
        params(d.block_request(&[2u8; 32])),
        (shown(&text("get_block")), shown(&obj(vec![("hash", text(&"02".repeat(32)))])))
    );
    assert_eq!(
        params(d.block_hash_request(6)),
        (shown(&text("get_block_header_by_height")), shown(&obj(vec![("height", Json::Number(6))])))
    );
    assert_eq!(
        params(d.o_indexes_request(&[3u8; 32])),
        (shown(&text("get_o_indexes")), shown(&obj(vec![("txid", text(&"03".repeat(32)))])))
    );
    assert_eq!(
        params(d.distribution_request(0, 99)),
        (
            shown(&text("get_output_distribution")),
            shown(&obj(vec![
                ("amounts", list(vec![Json::Number(0)])),
                ("cumulative", Json::Bool(true)),
                ("from_height", Json::Number(0)),
                ("to_height", Json::Number(99)),
            ]))
        )
    );
    assert_eq!(
        params(d.fee_rate_request()),
        (shown(&text("get_fee_estimate")), shown(&obj(vec![("grace_blocks", Json::Number(10))])))
    );
    let q = d.publish_transaction_request(&[1, 2, 255]);
    assert_eq!(q.url, "u/send_raw_transaction");
    assert_eq!(shown(&q.body), shown(&obj(vec![("tx_as_hex", text("0102ff"))])));
}

#[test]
fn an_error_in_a_reply_counts_first() {
    let reply = obj(vec![("error", Json::Null), ("result", Json::Bool(true))]);
    assert!(matches!(
        post_result("m", &reply),
        Err(RpcError::Refused { call, error: Json::Null }) if call == "m"
    ));
    assert!(matches!(
        post_uri_result("/m", &reply),
        Err(RpcError::Refused { call, .. }) if call == "/m"
    ));
    assert!(matches!(post_result("m", &obj(vec![])), Err(RpcError::NoResult { call }) if call == "m"));
    assert!(matches!(post_result("m", &result(Json::Null)), Ok(Json::Null)));
    assert!(post_uri_result("/m", &Json::Number(3)).is_ok());
}

#[test]
fn latest_block_is_one_less_than_the_count() {
    let d = DaemonRpc::new("u");
    let count = |n: Json| result(obj(vec![("count", n)]));
    assert_eq!(d.latest_block_number_(&count(Json::Number(7))).unwrap(), 6);
    assert_eq!(d.latest_block_number_(&count(Json::Number(0))).unwrap(), 0);
    assert!(matches!(d.latest_block_number_(&count(text("7"))), Err(RpcError::BadCount)));
    assert!(matches!(
        d.latest_block_number_(&count(Json::OtherNumber("-1".to_string()))),
        Err(RpcError::BadCount)
    ));
}

#[test]
fn block_errors() {
    let blob = |s: Json| DaemonRpc::block_(&result(obj(vec![("blob", s)])));
    assert!(matches!(blob(Json::Null), Err(RpcError::NoBlob)));
    assert!(matches!(blob(text("0")), Err(RpcError::BlobHex(HexError::OddLength))));
    assert!(matches!(blob(text("00")), Err(RpcError::BlockParse(_))));
}

#[test]
fn block_hash_in_the_header() {
    let hash = |s: Json| {
        DaemonRpc::block_hash(&result(obj(vec![("block_header", obj(vec![("hash", s)]))])))
    };
    assert_eq!(hash(text(&"0a".repeat(32))).unwrap(), [10u8; 32]);
    assert!(matches!(hash(Json::Null), Err(RpcError::NoHash)));
    assert!(matches!(DaemonRpc::block_hash(&result(obj(vec![]))), Err(RpcError::NoHash)));
    assert!(matches!(hash(text("zz")), Err(RpcError::HashHex(_))));
    assert!(matches!(hash(text("00")), Err(RpcError::HashLength)));
}

#[test]
fn raw_transactions() {
    let reply = obj(vec![(
        "txs",
        list(vec![
            obj(vec![("as_hex", text("0102")), ("tx_hash", text(&"0a".repeat(32)))]),
            obj(vec![("as_hex", text("")), ("pruned_as_hex", text("03")), ("prunable_hash", text(&"05".repeat(32)))]),
            obj(vec![("prunable_hash", text(""))]),
        ]),
    )]);
    let hashes = [[10u8; 32], [11u8; 32], [12u8; 32]];
    let txs = DaemonRpc::txs_(&hashes, Some(&reply)).unwrap();
    assert_eq!(txs.len(), 3);
    assert_eq!((txs[0].hash, txs[0].bytes.clone(), txs[0].prunable_hash), (hashes[0], vec![1, 2], None));
    assert_eq!((txs[1].hash, txs[1].bytes.clone(), txs[1].prunable_hash), (hashes[1], vec![3], Some([5u8; 32])));
    assert_eq!((txs[2].hash, txs[2].bytes.clone(), txs[2].prunable_hash), (hashes[2], vec![], None));
    assert_eq!(DaemonRpc::txs_(&[], None).unwrap().len(), 0);
}

#[test]
fn raw_transaction_errors() {
    let hash = [[10u8; 32]];
    let txs = |v: Vec<Json>| obj(vec![("txs", list(v))]);
    let one = |t: Json| DaemonRpc::txs_(&hash, Some(&txs(vec![t]))).err().unwrap();
    assert!(matches!(one(obj(vec![("as_hex", text("x1"))])), RpcError::TxHex(_)));
    assert!(matches!(one(obj(vec![("prunable_hash", text("1"))])), RpcError::PrunableHashHex(_)));
    assert!(matches!(one(obj(vec![("prunable_hash", text("11"))])), RpcError::PrunableHashLength));
    assert!(matches!(DaemonRpc::txs_(&hash, Some(&obj(vec![]))), Err(RpcError::NoTxs)));
    assert!(matches!(DaemonRpc::txs_(&hash, None), Err(RpcError::NoTxs)));
    assert!(matches!(
        DaemonRpc::pruned_txs_(&hash, Some(&txs(vec![obj(vec![("as_hex", text("ff"))])]))),
        Err(RpcError::TxParse(_))
    ));
}

#[test]
fn transactions_are_those_asked_for() {
    let txs = |v: Vec<Json>| obj(vec![("txs", list(v))]);
    let named = |hash: &str| obj(vec![("as_hex", text("01")), ("tx_hash", text(hash))]);
    let hashes = [[10u8; 32], [11u8; 32]];
    let (a, b) = ("0a".repeat(32), "0b".repeat(32));
    let read = |v: Vec<Json>| DaemonRpc::txs_(&hashes, Some(&txs(v)));
    assert_eq!(read(vec![named(&a), named(&b)]).unwrap().len(), 2);
    assert!(matches!(read(vec![named(&a)]), Err(RpcError::TxCount)));
    assert!(matches!(read(vec![]), Err(RpcError::TxCount)));
    assert!(matches!(read(vec![named(&a), named(&b), named(&b)]), Err(RpcError::TxCount)));
    assert!(matches!(read(vec![named(&b), named(&a)]), Err(RpcError::ForeignTx)));
    assert!(matches!(read(vec![named(&a), named("")]), Err(RpcError::ForeignTx)));
    assert!(matches!(read(vec![named(&a), named("zz")]), Err(RpcError::ForeignTx)));
}

#[test]
fn output_indexes() {
    let reply = |v: Json| result(obj(vec![("o_indexes", v)]));
    assert_eq!(
        DaemonRpc::o_indexes_(&reply(list(vec![Json::Number(4), Json::Number(2)]))).unwrap(),
        vec![4, 2]
    );
    assert!(matches!(DaemonRpc::o_indexes_(&reply(Json::Null)), Err(RpcError::NoOutputIndexes)));
    assert!(matches!(
        DaemonRpc::o_indexes_(&reply(list(vec![Json::Number(4), Json::Null]))),
        Err(RpcError::BadOutputIndex)
    ));
}

#[test]
fn output_distribution() {
    let reply = |v: Json| {
        result(obj(vec![("distributions", list(vec![obj(vec![("distribution", v)]), Json::Null]))]))
    };
    assert_eq!(
        DaemonRpc::distribution_(&reply(list(vec![Json::Number(1), Json::Number(3)]))).unwrap(),
        vec![1, 3]
    );
    assert!(matches!(DaemonRpc::distribution_(&reply(Json::Null)), Err(RpcError::BadDistribution)));
    assert!(matches!(
        DaemonRpc::distribution_(&result(obj(vec![("distributions", list(vec![]))]))),
        Err(RpcError::BadDistribution)
    ));
    assert!(matches!(
        DaemonRpc::distribution_(&reply(list(vec![text("1")]))),
        Err(RpcError::BadDistributionValue)
    ));
}

fn out(key: &str, mask: &str, unlocked: Option<bool>, txid: &str) -> Json {
    let mut fields = vec![("key", text(key)), ("mask", text(mask)), ("txid", text(txid))];
    if let Some(b) = unlocked {
        fields.push(("unlocked", Json::Bool(b)));
    }
    obj(fields)
}

fn outs(v: Vec<Json>) -> Json {
    obj(vec![("outs", list(v))])
}

#[test]
fn ring_outputs() {
    let id = "09".repeat(32);
    let reply = outs(vec![out(BASE, BASE, None, &id), out(BASE, BASE, Some(false), &id)]);
    let found = DaemonRpc::ringct_outputs(&[4, 5], Some(&reply)).unwrap();
    assert_eq!(found.len(), 2);
    assert!(found[0].unlocked && !found[1].unlocked);
    assert_eq!(xmxx_companion::bytes::encode_hex(&found[0].key), BASE);
    assert_eq!(xmxx_companion::bytes::encode_hex(&found[0].commitment), BASE);
    assert_eq!(found[0].transaction, [9u8; 32]);
    let unlocked = DaemonRpc::unlocked_ringct_outputs(&[4, 5], Some(&reply)).unwrap();
    assert!(unlocked[0].points.is_some() && unlocked[1].points.is_none());
    assert_eq!(DaemonRpc::outs_(&[], None).unwrap().len(), 0);
}

#[test]
fn ring_output_errors() {
    let id = "09".repeat(32);
    let no_point = "02".repeat(32);
    let one = |o: Json| DaemonRpc::ringct_outputs(&[4], Some(&outs(vec![o]))).err().unwrap();
    assert!(matches!(one(obj(vec![])), RpcError::NoKey));
    assert!(matches!(one(obj(vec![("key", text("zz"))])), RpcError::NoMask));
    assert!(matches!(one(obj(vec![("key", text("zz")), ("mask", text(""))])), RpcError::NoTxid));
    assert!(matches!(one(out("zz", "zz", None, "zz")), RpcError::KeyHex(_)));
    assert!(matches!(one(out("00", "zz", None, "zz")), RpcError::MaskHex(_)));
    assert!(matches!(one(out("00", "00", None, "zz")), RpcError::TxidHex(_)));
    assert!(matches!(one(out("00", BASE, None, &id)), RpcError::Point(PointError::BadLength)));
    assert!(matches!(one(out(&no_point, BASE, None, &id)), RpcError::Point(PointError::InvalidPoint)));
    assert!(matches!(one(out(BASE, "", None, &id)), RpcError::Point(PointError::BadLength)));
    assert!(matches!(one(out(BASE, BASE, None, "00")), RpcError::TxidLength));
    assert!(matches!(DaemonRpc::outs_(&[4], Some(&obj(vec![]))), Err(RpcError::NoOuts)));
    let locked = outs(vec![out(&no_point, "", Some(false), &id)]);
    assert!(DaemonRpc::unlocked_ringct_outputs(&[4], Some(&locked)).unwrap()[0].points.is_none());
    let unlocked = outs(vec![out(&no_point, "", Some(true), &id)]);
    assert!(DaemonRpc::unlocked_ringct_outputs(&[4], Some(&unlocked)).is_err());
}

#[test]
fn ring_outputs_are_as_many_as_asked_for() {
    let id = "09".repeat(32);
    let reply = outs(vec![out(BASE, BASE, None, &id), out(BASE, BASE, None, &id)]);
    assert!(matches!(DaemonRpc::outs_(&[4], Some(&reply)), Err(RpcError::OutCount)));
    assert!(matches!(DaemonRpc::ringct_outputs(&[4, 5, 6], Some(&reply)), Err(RpcError::OutCount)));
    assert!(matches!(DaemonRpc::unlocked_ringct_outputs(&[4], Some(&reply)), Err(RpcError::OutCount)));
    assert!(matches!(DaemonRpc::outs_(&[4], None), Err(RpcError::NoOuts)));
}

#[test]
fn fee_rates() {
    let fee = |n: Json| result(obj(vec![("fee", n)]));
    let rate = DaemonRpc::fee_rate(&fee(Json::Number(2048 * 20 + 7))).unwrap();
    assert_eq!((rate.per_weight, rate.mask), (20, 2048));
    assert_eq!(DaemonRpc::fee_rate(&fee(Json::Number(5))).unwrap().per_weight, 1);
    assert!(matches!(DaemonRpc::fee_rate(&fee(Json::Null)), Err(RpcError::InvalidFee)));
    let high = fee(Json::Number(2048 * 10_001));
    assert_eq!(DaemonRpc::fee_rate(&high).unwrap().per_weight, 10_001);
    assert!(matches!(DaemonRpc::bounded_fee_rate(&high, MAX_PER_WEIGHT), Err(RpcError::InvalidFee)));
    let most = fee(Json::Number(2048 * 10_000));
    assert_eq!(DaemonRpc::bounded_fee_rate(&most, MAX_PER_WEIGHT).unwrap().per_weight, 10_000);
}

#[test]
fn publishing() {
    assert!(DaemonRpc::publish_transaction(&obj(vec![("status", text("OK"))])).is_ok());
    let refused = obj(vec![("status", text("Failed")), ("reason", text("double spend"))]);
    assert!(matches!(
        DaemonRpc::publish_transaction(&refused),
        Err(RpcError::Rejected { status: Some(s), reason: Json::Str(r) })
            if s == "Failed" && r == "double spend"
    ));
    assert!(matches!(
        DaemonRpc::publish_transaction(&obj(vec![])),
        Err(RpcError::Rejected { status: None, reason: Json::Null })
    ));
}

#[test]
fn the_first_field_with_a_name_counts() {
    let v = obj(vec![("a", Json::Number(1)), ("a", Json::Number(2)), ("b", Json::Bool(true))]);
    assert_eq!(v.u64_at("a"), Some(1));
    assert_eq!(v.get("b").and_then(|b| b.as_bool()), Some(true));
    assert!(v.get("c").is_none());
    assert!(Json::Null.get("a").is_none());
    assert_eq!(shown(&v.copy()), shown(&v));
}
