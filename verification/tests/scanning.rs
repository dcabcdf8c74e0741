use curve25519_dalek::constants::ED25519_BASEPOINT_POINT as G;
use curve25519_dalek::Scalar as DalekScalar;
use monero_oxide::block::{Block, BlockHeader};
use monero_oxide::ed25519::{CompressedPoint, Scalar};
use monero_oxide::transaction::{
    Input, NotPruned, Output, Pruned, Timelock, Transaction, TransactionPrefix,
};

use xmxx_companion::bytes::{encode_hex, varint};
use xmxx_companion::chain::{
    first_key, hash_told, point_from_32, read_block, read_full_tx, read_pruned_tx, spend_key_of_address,
    tx_public_key, view_keys, BlockInfo, FoundOutput, KeysError, PointError, PrunedTx, ViewKeys,
};
use xmxx_companion::fetch::{contiguous_blocks, FetchedBlock, RangeFetch};
use xmxx_companion::json::Json;
use xmxx_companion::rpc::{tells_foreign, DaemonRpc, RpcError};
use xmxx_companion::scannable::{CountBefore, ScannableBlock};
use xmxx_companion::state::{parse_state, state_text};
use xmxx_companion::sync::{ScanError, SyncRun};
use xmxx_companion::wallet::{own_outputs, scan_into, OwnedOutput, WalletState};

fn scalar(n: u64) -> DalekScalar {
    DalekScalar::from(n)
}

fn spend_key() -> [u8; 32] {
    (G * scalar(11)).compress().to_bytes()
}

fn view_key() -> [u8; 32] {
    scalar(7).to_bytes()
}

/// A decoded mainnet address.
fn raw_address() -> Vec<u8> {
    let mut raw = vec![0x12u8];
    raw.extend(spend_key());
    raw.extend([9u8; 36]);
    raw
}

fn keys() -> ViewKeys {
    view_keys(&raw_address(), view_key()).ok().unwrap()
}

/// The public key of a transaction with a secret.
fn tx_key(secret: u64) -> [u8; 32] {
    (G * scalar(secret)).compress().to_bytes()
}

/// The one-time key of an output to `keys()`.
fn one_time_key(secret: u64, index: u64) -> [u8; 32] {
    let shared = (G * (scalar(7) * scalar(secret))).mul_by_cofactor().compress().to_bytes();
    let mut data = shared.to_vec();
    data.extend(varint(index));
    let offset = DalekScalar::from_bytes_mod_order(<[u8; 32]>::from(Scalar::hash(&data)));
    (G * offset + G * scalar(11)).compress().to_bytes()
}

/// A transaction of version two that creates coins, to given keys.
fn coinbase(number: usize, outputs: &[([u8; 32], u64)], extra: Vec<u8>) -> Transaction<NotPruned> {
    Transaction::V2 {
        prefix: TransactionPrefix {
            additional_timelock: Timelock::None,
            inputs: vec![Input::Gen(number)],
            outputs: outputs
                .iter()
                .map(|(key, amount)| Output {
                    amount: Some(*amount),
                    key: CompressedPoint::from(*key),
                    view_tag: None,
                })
                .collect(),
            extra,
        },
        proofs: None,
    }
}

fn old_tx(number: usize) -> Transaction<NotPruned> {
    match coinbase(number, &[(tx_key(2), 5)], vec![]) {
        Transaction::V2 { prefix, .. } => Transaction::V1 { prefix, signatures: vec![] },
        other => other,
    }
}

fn extra(secret: u64) -> Vec<u8> {
    let mut e = vec![1u8];
    e.extend(tx_key(secret));
    e
}

fn block(number: usize, miner: Transaction<NotPruned>, hashes: Vec<[u8; 32]>) -> Vec<u8> {
    let header = BlockHeader {
        hardfork_version: 16,
        hardfork_signal: 16,
        timestamp: 1_700_000_000,
        previous: [number as u8; 32],
        nonce: 3,
    };
    Block::new(header, miner, hashes).unwrap().serialize()
}

fn info(number: usize, hashes: Vec<[u8; 32]>) -> BlockInfo {
    read_block(block(number, coinbase(number, &[], vec![]), hashes)).unwrap_or_else(|e| panic!("{e}"))
}

fn pruned(outputs: usize) -> PrunedTx {
    let outs = vec![(tx_key(3), 1u64); outputs];
    read_pruned_tx(coinbase(0, &outs, vec![]).serialize()).unwrap_or_else(|e| panic!("{e}"))
}

fn obj(fields: Vec<(&str, Json)>) -> Json {
    Json::Object(fields.into_iter().map(|(k, v)| (k.to_string(), v)).collect())
}

fn block_reply(blob: &[u8]) -> Json {
    obj(vec![("result", obj(vec![("blob", Json::Str(encode_hex(blob)))]))])
}

fn txs_reply(blobs: &[Vec<u8>]) -> Json {
    let txs = blobs.iter().map(|b| obj(vec![("pruned_as_hex", Json::Str(encode_hex(b)))])).collect();
    obj(vec![("txs", Json::Array(txs))])
}

fn distribution_reply(counts: &[u64]) -> Json {
    let counts = Json::Array(counts.iter().map(|c| Json::Number(*c)).collect());
    obj(vec![(
        "result",
        obj(vec![("distributions", Json::Array(vec![obj(vec![("distribution", counts)])]))]),
    )])
}

#[test]
fn blocks_are_read() {
    let blob = block(12, coinbase(12, &[], vec![]), vec![[4u8; 32], [5u8; 32]]);
    let b = read_block(blob.clone()).ok().unwrap();
    assert_eq!(b.number(), 12);
    assert_eq!(b.transactions(), &vec![[4u8; 32], [5u8; 32]]);
    assert_eq!(b.blob(), &blob);
    assert_eq!((b.miner_version(), b.miner_outputs()), (2, 0));
    assert_eq!(b.miner_hash(), coinbase(12, &[], vec![]).hash());
    assert_eq!(b.miner_extra(), &Vec::<u8>::new());
    let cut = blob[..20].to_vec();
    let message = Block::read(&mut cut.as_slice()).err().unwrap().to_string();
    assert_eq!(read_block(cut).err(), Some(message));
    let paid = read_block(block(3, coinbase(3, &[(tx_key(2), 1), (tx_key(3), 2)], vec![]), vec![])).ok().unwrap();
    assert_eq!((paid.miner_version(), paid.miner_outputs()), (2, 2));
    let old = read_block(block(3, old_tx(3), vec![])).ok().unwrap();
    assert_eq!((old.miner_version(), old.miner_outputs()), (1, 1));
}

#[test]
fn pruned_transactions_are_read() {
    let tx = read_pruned_tx(coinbase(0, &[(tx_key(2), 1), (tx_key(3), 2)], extra(9)).serialize()).ok().unwrap();
    assert_eq!((tx.version(), tx.outputs(), tx.extra().clone()), (2, 2, extra(9)));
    assert_eq!(tx_public_key(&tx), Some(tx_key(9)));
    let old = read_pruned_tx(old_tx(0).serialize()).ok().unwrap();
    assert_eq!(old.version(), 1);
    assert_eq!(tx_public_key(&old), None);
    assert!(read_pruned_tx(vec![9]).is_err());
}

#[test]
fn full_transactions_are_read() {
    let tx = coinbase(3, &[(tx_key(2), 1)], extra(5));
    let mut bytes = tx.serialize();
    let read = read_full_tx(&bytes).ok().unwrap();
    assert_eq!(read.hash, tx.hash());
    assert_eq!(read.blob, bytes);
    bytes.push(0xff);
    assert_eq!(read_full_tx(&bytes).ok().unwrap().blob, tx.serialize());
    assert!(read_full_tx(&[]).is_err());
}

#[test]
fn the_first_key_of_a_list() {
    assert_eq!(first_key(&Some(vec![[1u8; 32], [2u8; 32]])), Some([1u8; 32]));
    assert_eq!(first_key(&Some(vec![])), None);
    assert_eq!(first_key(&None), None);
}

#[test]
fn points_are_read() {
    assert_eq!(point_from_32(&tx_key(5)), Ok(tx_key(5)));
    assert_eq!(point_from_32(&[0u8; 31]), Err(PointError::BadLength));
    assert_eq!(point_from_32(&[2u8; 32]), Err(PointError::InvalidPoint));
    // The identity with its sign bit set is not canonical.
    let mut identity = [0u8; 32];
    identity[0] = 1;
    assert_eq!(point_from_32(&identity), Ok(identity));
    identity[31] = 0x80;
    assert_eq!(point_from_32(&identity), Err(PointError::InvalidPoint));
}

#[test]
fn view_keys_of_an_address() {
    let raw = raw_address();
    assert_eq!(spend_key_of_address(&raw), Some(spend_key()));
    let k = view_keys(&raw, view_key()).ok().unwrap();
    assert_eq!((k.spend_key(), k.view_key()), (spend_key(), view_key()));
    let error = |raw: &[u8]| view_keys(raw, view_key()).err();
    assert_eq!(error(&raw[..68]), Some(KeysError::NotMainnetStandard));
    let mut other = raw.clone();
    other[0] = 0x2a;
    assert_eq!(error(&other), Some(KeysError::NotMainnetStandard));
    let mut bad = raw.clone();
    bad[1..33].copy_from_slice(&[2u8; 32]);
    assert_eq!(error(&bad), Some(KeysError::BadSpendKey));
    // A point of order two.
    let mut torsioned = raw;
    torsioned[1..33].copy_from_slice(&[0xff; 32]);
    torsioned[1] = 0xec;
    torsioned[32] = 0x7f;
    assert_eq!(error(&torsioned), Some(KeysError::TorsionedSpendKey));
}

#[test]
fn a_range_is_fetched_height_by_height() {
    let d = DaemonRpc::new("u");
    let one = block(5, coinbase(5, &[], vec![]), vec![]);
    let tx = coinbase(0, &[(tx_key(2), 1)], vec![]);
    let two = block(6, coinbase(6, &[], vec![]), vec![tx.hash()]);
    let fetch = RangeFetch::new(5, 6);
    let asked = fetch.request(&d).unwrap();
    assert_eq!(asked.body.get("params").unwrap().u64_at("height"), Some(5));
    let fetch = fetch.reply(&block_reply(&one)).ok().unwrap();
    let asked = fetch.request(&d).unwrap();
    assert_eq!(asked.body.get("params").unwrap().u64_at("height"), Some(6));
    let fetch = fetch.reply(&block_reply(&two)).ok().unwrap();
    let asked = fetch.request(&d).unwrap();
    assert_eq!(asked.url, "u/get_transactions");
    assert!(fetch.awaits_transactions());
    assert_eq!(
        asked.body.get("txs_hashes").unwrap().as_array().unwrap()[0].as_str(),
        Some(encode_hex(&tx.hash()).as_str())
    );
    let fetch = fetch.reply(&txs_reply(&[tx.serialize()])).ok().unwrap();
    assert!(fetch.request(&d).is_none());
    let found = fetch.finish().unwrap();
    assert_eq!(found.len(), 2);
    assert_eq!((found[0].block.number(), found[0].txs.len()), (5, 0));
    assert_eq!((found[1].block.number(), found[1].txs[0].blob().clone()), (6, tx.serialize()));
    let numbers: Vec<usize> = contiguous_blocks(found).iter().map(|b| b.number()).collect();
    assert_eq!(numbers, vec![5, 6]);
}

#[test]
fn a_fetch_takes_only_the_transactions_of_its_blocks() {
    let tx = coinbase(0, &[(tx_key(2), 1)], vec![]);
    let other = coinbase(1, &[(tx_key(2), 1)], vec![]);
    let asked = || {
        let b = block(6, coinbase(6, &[], vec![]), vec![tx.hash(), other.hash()]);
        RangeFetch::new(6, 6).reply(&block_reply(&b)).ok().unwrap()
    };
    let short = txs_reply(&[tx.serialize()]);
    assert!(matches!(asked().reply(&short), Err(RpcError::TxCount)));
    let twice = txs_reply(&[tx.serialize(), tx.serialize()]);
    assert!(matches!(asked().reply(&twice), Err(RpcError::ForeignTx)));
    let swapped = txs_reply(&[other.serialize(), tx.serialize()]);
    assert!(matches!(asked().reply(&swapped), Err(RpcError::ForeignTx)));
    assert!(asked().finish().is_none());
    let all = txs_reply(&[tx.serialize(), other.serialize()]);
    assert_eq!(asked().reply(&all).ok().unwrap().finish().unwrap()[0].txs.len(), 2);
}

#[test]
fn a_fetch_stops_at_a_bad_reply() {
    let fetch = RangeFetch::new(5, 6);
    assert!(matches!(fetch.reply(&obj(vec![])), Err(RpcError::NoResult { .. })));
    assert!(RangeFetch::new(6, 5).request(&DaemonRpc::new("u")).is_none());
    assert!(RangeFetch::new(usize::MAX, usize::MAX).request(&DaemonRpc::new("u")).is_some());
}

#[test]
fn hashed_transactions_need_fitting_versions() {
    let new_hash = [coinbase(0, &[], vec![]).hash()];
    let old_hash = [old_tx(0).hash()];
    let new = coinbase(0, &[], vec![]).serialize();
    let old = old_tx(0).serialize();
    let reply = |blob: &[u8], hash: &str| {
        let t = obj(vec![
            ("pruned_as_hex", Json::Str(encode_hex(blob))),
            ("prunable_hash", Json::Str(hash.to_string())),
        ]);
        obj(vec![("txs", Json::Array(vec![t]))])
    };
    let hash = "06".repeat(32);
    let found = DaemonRpc::pruned_transactions(&new_hash, Some(&reply(&new, &hash))).ok().unwrap();
    assert_eq!(found[0].prunable_hash, Some([6u8; 32]));
    assert_eq!(DaemonRpc::pruned_transactions(&old_hash, Some(&reply(&old, ""))).ok().unwrap().len(), 1);
    assert!(matches!(
        DaemonRpc::pruned_transactions(&new_hash, Some(&reply(&new, ""))),
        Err(RpcError::PrunedTransaction)
    ));
    assert!(matches!(
        DaemonRpc::pruned_transactions(&old_hash, Some(&reply(&old, &hash))),
        Err(RpcError::PrunedTransaction)
    ));
    let full = DaemonRpc::transactions(&new_hash, Some(&reply(&new, ""))).ok().unwrap();
    assert_eq!((full[0].blob.clone(), full[0].hash), (new.clone(), new_hash[0]));
    assert!(matches!(
        DaemonRpc::transactions(&old_hash, Some(&reply(&new, ""))),
        Err(RpcError::ForeignTx)
    ));
}

/// A pruned transaction of version two with one output.
fn pruned_transfer() -> Vec<u8> {
    let tx = Transaction::<NotPruned>::V2 {
        prefix: TransactionPrefix {
            additional_timelock: Timelock::None,
            inputs: vec![Input::ToKey {
                amount: None,
                key_offsets: vec![1, 2],
                key_image: CompressedPoint::from(tx_key(6)),
            }],
            outputs: vec![Output { amount: None, key: CompressedPoint::from(tx_key(2)), view_tag: None }],
            extra: vec![],
        },
        proofs: None,
    };
    let mut blob = tx.serialize();
    // Bulletproofs+, the fee, the amount and its commitment.
    assert_eq!(blob.pop(), Some(0));
    blob.push(6);
    blob.extend(varint(1000));
    blob.extend([5u8; 8]);
    blob.extend(tx_key(8));
    blob
}

#[test]
fn a_pruned_transaction_is_told_by_its_hashes() {
    let blob = pruned_transfer();
    assert!(read_full_tx(&blob).is_err());
    let tx = Transaction::<Pruned>::read(&mut blob.as_slice()).unwrap();
    let hash = tx.hash_with_prunable_hash([6u8; 32]).unwrap();
    assert_eq!(hash_told(&blob, Some([6u8; 32])), Some(hash));
    assert_eq!(hash_told(&blob, None), None);
    assert_eq!(hash_told(&[], Some([6u8; 32])), None);
    let miner = coinbase(3, &[], vec![]);
    assert_eq!(hash_told(&miner.serialize(), None), Some(miner.hash()));
    let read = |prunable: &str| {
        let t = obj(vec![
            ("pruned_as_hex", Json::Str(encode_hex(&blob))),
            ("prunable_hash", Json::Str(prunable.repeat(32))),
        ]);
        DaemonRpc::pruned_txs_(&[hash], Some(&obj(vec![("txs", Json::Array(vec![t]))])))
    };
    assert_eq!(read("06").ok().unwrap()[0].outputs(), 1);
    assert!(matches!(read("07"), Err(RpcError::ForeignTx)));
    assert_eq!(read("").ok().unwrap().len(), 1);
}

#[test]
fn foreign_transactions_are_told() {
    let hash = [7u8; 32];
    let named = |s: &str| obj(vec![("tx_hash", Json::Str(s.repeat(32)))]);
    assert!(!tells_foreign(&hash, &Json::Null, None));
    assert!(!tells_foreign(&hash, &named("07"), Some(hash)));
    assert!(tells_foreign(&hash, &named("08"), Some(hash)));
    assert!(tells_foreign(&hash, &named("07"), Some([8u8; 32])));
    assert!(tells_foreign(&hash, &Json::Null, Some([8u8; 32])));
}

#[test]
fn ringct_counts_are_kept() {
    let mut d = DaemonRpc::new("u");
    assert_eq!(d.ringct_count_at(0), Some(0));
    assert_eq!(d.ringct_at, Some((0, 0)));
    assert_eq!(d.ringct_count_at(9), None);
    assert_eq!(d.ringct_count_reply(9, &distribution_reply(&[3, 8, 20])).ok(), Some(20));
    assert_eq!(d.ringct_count_at(9), Some(20));
    assert!(matches!(d.ringct_count_before(10), CountBefore::Known(20)));
    match d.ringct_count_before(12) {
        CountBefore::Ask { height, request } => {
            assert_eq!(height, 11);
            assert_eq!(request.body.get("params").unwrap().u64_at("to_height"), Some(11));
        }
        CountBefore::Known(_) => panic!("not known"),
    }
    assert!(d.advance_ringct_count(11, 20, 5).is_ok());
    assert_eq!(d.ringct_at, Some((11, 25)));
    assert!(matches!(d.advance_ringct_count(12, 25, u64::MAX), Err(RpcError::CountOverflow)));
    assert_eq!(d.ringct_at, Some((11, 25)));
    assert_eq!(d.ringct_count_reply(3, &distribution_reply(&[])).ok(), Some(0));
    assert!(d.ringct_count_reply(4, &obj(vec![])).is_err());
    assert_eq!(d.ringct_at, Some((3, 0)));
}

fn fetched(number: usize, txs: Vec<PrunedTx>) -> FetchedBlock {
    FetchedBlock { block: info(number, vec![[0u8; 32]; txs.len()]), txs }
}

#[test]
fn blocks_are_made_ready() {
    let mut d = DaemonRpc::new("u");
    d.ringct_at = Some((4, 100));
    let old = read_pruned_tx(old_tx(0).serialize()).ok().unwrap();
    let blocks = vec![fetched(5, vec![pruned(2), old, pruned(3)]), fetched(6, vec![]), fetched(7, vec![pruned(4)])];
    let ready = d.contiguous_scannable_blocks(100, blocks).ok().unwrap();
    let firsts: Vec<u64> = ready.iter().map(|s| s.first_output).collect();
    assert_eq!(firsts, vec![100, 105, 105]);
    assert_eq!(ready[0].transactions.len(), 2);
    assert_eq!(d.ringct_at, Some((7, 109)));
    assert!(matches!(d.ringct_count_before(8), CountBefore::Known(109)));
    assert_eq!(d.contiguous_scannable_blocks(109, vec![]).ok().unwrap().len(), 0);
    assert_eq!(d.ringct_at, Some((7, 109)));
}

#[test]
fn outputs_of_miners_count() {
    let mut d = DaemonRpc::new("u");
    let paid = |number: usize, miner: Transaction<NotPruned>, txs: Vec<PrunedTx>| FetchedBlock {
        block: read_block(block(number, miner, vec![[0u8; 32]; txs.len()])).ok().unwrap(),
        txs,
    };
    let to_miner = |number: usize| coinbase(number, &[(tx_key(2), 6), (tx_key(3), 7)], vec![]);
    let blocks = vec![
        paid(5, to_miner(5), vec![pruned(3)]),
        paid(6, old_tx(6), vec![]),
        paid(7, to_miner(7), vec![]),
    ];
    let ready = d.contiguous_scannable_blocks(100, blocks).ok().unwrap();
    let firsts: Vec<u64> = ready.iter().map(|s| s.first_output).collect();
    assert_eq!(firsts, vec![100, 105, 105]);
    assert_eq!(d.ringct_at, Some((7, 107)));
    // A count of another height does not add to it.
    d.ringct_at = Some((2, 1));
    assert_eq!(d.contiguous_scannable_blocks(50, vec![fetched(9, vec![pruned(1)])]).ok().unwrap().len(), 1);
    assert_eq!(d.ringct_at, Some((9, 51)));
}

#[test]
fn batches_lead_to_the_same_counts() {
    let all = || vec![fetched(5, vec![pruned(2)]), fetched(6, vec![pruned(3)]), fetched(7, vec![pruned(1)])];
    let mut once = DaemonRpc::new("u");
    once.ringct_at = Some((4, 10));
    let whole: Vec<u64> =
        once.contiguous_scannable_blocks(10, all()).ok().unwrap().iter().map(|s| s.first_output).collect();
    let mut twice = DaemonRpc::new("u");
    twice.ringct_at = Some((4, 10));
    let mut blocks = all();
    let rest = blocks.split_off(1);
    let mut parts: Vec<u64> =
        twice.contiguous_scannable_blocks(10, blocks).ok().unwrap().iter().map(|s| s.first_output).collect();
    let pre = match twice.ringct_count_before(6) {
        CountBefore::Known(c) => c,
        CountBefore::Ask { .. } => panic!("not known"),
    };
    parts.extend(twice.contiguous_scannable_blocks(pre, rest).ok().unwrap().iter().map(|s| s.first_output));
    assert_eq!(whole, parts);
    assert_eq!(once.ringct_at, twice.ringct_at);
}

#[test]
fn counts_beyond_the_largest_number_are_refused() {
    let mut d = DaemonRpc::new("u");
    d.ringct_at = Some((4, 7));
    assert!(matches!(
        d.contiguous_scannable_blocks(u64::MAX, vec![fetched(5, vec![pruned(1)])]),
        Err(RpcError::CountOverflow)
    ));
    assert_eq!(d.ringct_at, Some((4, 7)));
    assert_eq!(
        d.contiguous_scannable_blocks(u64::MAX - 1, vec![fetched(5, vec![pruned(1)])]).ok().unwrap()[0].first_output,
        u64::MAX - 1
    );
}

#[test]
fn one_block_is_made_ready() {
    let mut d = DaemonRpc::new("u");
    d.ringct_at = Some((4, 7));
    let s = d.scannable_block(info(5, vec![[0u8; 32]]), vec![pruned(3)], 7).ok().unwrap();
    assert_eq!((s.first_output, s.transactions.len()), (7, 1));
    assert_eq!(d.ringct_at, Some((5, 10)));
    assert!(d.scannable_block(info(6, vec![[0u8; 32]]), vec![pruned(3)], u64::MAX).is_err());
    assert_eq!(d.ringct_at, Some((5, 10)));
}

/// A block with an output in its miner transaction, one in its only transaction,
/// one without an amount, and one to somebody else.
fn our_block(number: usize) -> ScannableBlock {
    let miner = coinbase(number, &[(one_time_key(21, 0), 600)], extra(21));
    let tx = coinbase(
        number,
        &[(tx_key(99), 50), (one_time_key(22, 1), 70), (one_time_key(22, 2), 0)],
        extra(22),
    );
    ScannableBlock {
        block: read_block(block(number, miner, vec![[0x33u8; 32]])).ok().unwrap(),
        transactions: vec![read_pruned_tx(tx.serialize()).ok().unwrap()],
        first_output: 1000,
    }
}

#[test]
fn scanning_finds_our_outputs() {
    let mut outputs: Vec<OwnedOutput> = Vec::new();
    scan_into(&keys(), &our_block(9), &mut outputs).unwrap();
    assert_eq!(outputs.len(), 2);
    let o = &outputs[0];
    assert_eq!((o.index_in_tx, o.index_on_chain, o.amount), (0, 1000, 600));
    assert_eq!(o.key, one_time_key(21, 0));
    assert_eq!(o.tx_pub_key, tx_key(21));
    let o = &outputs[1];
    assert_eq!((o.index_in_tx, o.index_on_chain, o.amount), (1, 1002, 70));
    assert_eq!((o.key, o.tx_pub_key), (one_time_key(22, 1), tx_key(22)));
    assert!(o.wallet_output.len() > 100);
}

#[test]
fn scanning_fails_without_all_transactions() {
    let mut b = our_block(9);
    b.transactions.clear();
    let mut outputs: Vec<OwnedOutput> = Vec::new();
    let e = scan_into(&keys(), &b, &mut outputs).unwrap_err();
    assert!(e.contains("InvalidScannableBlock"), "{e}");
    assert!(outputs.is_empty());
}

#[test]
fn the_last_transaction_with_a_hash_counts() {
    let tx = |secret: u64| read_pruned_tx(coinbase(0, &[], extra(secret)).serialize()).ok().unwrap();
    let miner = coinbase(3, &[], extra(34));
    let hashes = vec![[1u8; 32], [2u8; 32], [1u8; 32], [9u8; 32]];
    let b = ScannableBlock {
        block: read_block(block(3, miner.clone(), hashes)).ok().unwrap(),
        transactions: vec![tx(31), pruned(0), tx(33)],
        first_output: 0,
    };
    let found = |hash: [u8; 32], amount: u64| FoundOutput {
        transaction: hash,
        index_in_tx: 4,
        index_on_chain: 5,
        key: [6u8; 32],
        amount,
        wallet_output: vec![7],
    };
    let mut outputs: Vec<OwnedOutput> = Vec::new();
    own_outputs(
        &b,
        vec![found([1u8; 32], 1), found([2u8; 32], 2), found([9u8; 32], 3), found([8u8; 32], 4), found(miner.hash(), 5), found([1u8; 32], 0)],
        &mut outputs,
    );
    let known: Vec<([u8; 32], u64)> = outputs.iter().map(|o| (o.tx_pub_key, o.amount)).collect();
    assert_eq!(known, vec![(tx_key(33), 1), ([0u8; 32], 2), ([0u8; 32], 3), ([0u8; 32], 4), (tx_key(34), 5)]);
}

/// Blocks without outputs, for each height from one to another.
fn empty_blocks(start: usize, end: usize) -> Vec<ScannableBlock> {
    (start..=end)
        .map(|number| ScannableBlock { block: info(number, vec![]), transactions: vec![], first_output: 0 })
        .collect()
}

#[test]
fn a_scan_goes_batch_by_batch() {
    let state = WalletState::new();
    let mut run = SyncRun::start(&state, 100, 220).unwrap();
    let mut batches = Vec::new();
    while let Some((start, end)) = run.batch() {
        batches.push((start, end));
        run = run.scan(&keys(), &empty_blocks(start, end)).unwrap_or_else(|e| panic!("{}", e.text()));
    }
    assert_eq!(batches, vec![(100, 150), (151, 201), (202, 220)]);
    let state = run.finish().unwrap();
    assert_eq!((state.scanned_to, state.outputs.len()), (220, 0));
}

#[test]
fn no_block_is_scanned_twice() {
    let state = WalletState { outputs: vec![], scanned_to: 220 };
    assert!(SyncRun::start(&state, 100, 220).is_none());
    assert_eq!(SyncRun::start(&state, 100, 221).unwrap().batch(), Some((221, 221)));
    assert_eq!(SyncRun::start(&state, 300, 280).unwrap().batch(), Some((221, 271)));
}

/// Our block at a height of a chain of such blocks only.
fn our_block_on_chain(number: usize) -> ScannableBlock {
    // The miner's output and the three of the transaction.
    ScannableBlock { first_output: 4 * number as u64, ..our_block(number) }
}

/// The state after a scan of a chain whose every block is one of ours.
fn synced(state: &WalletState, from: usize, latest: usize) -> WalletState {
    let mut run = SyncRun::start(state, from, latest).unwrap();
    while let Some((start, end)) = run.batch() {
        let blocks = (start..=end).map(our_block_on_chain).collect();
        run = run.scan(&keys(), &blocks).unwrap_or_else(|e| panic!("{}", e.text()));
    }
    run.finish().unwrap()
}

#[test]
fn two_scans_find_what_one_finds() {
    let once = synced(&WalletState::new(), 3, 9);
    let twice = synced(&synced(&WalletState::new(), 3, 5), 3, 9);
    assert_eq!(once.outputs.len(), 14);
    assert_eq!(twice.scanned_to, 9);
    assert_eq!(once.balance(), Some(7 * 670));
    assert_eq!(twice.balance(), once.balance());
    let blobs = |s: &WalletState| s.outputs.iter().map(|o| o.wallet_output.clone()).collect::<Vec<_>>();
    assert_eq!(blobs(&once), blobs(&twice));
}

#[test]
fn no_output_counts_twice() {
    let mut state = WalletState::new();
    for latest in [4, 5, 9, 60] {
        state = synced(&state, 3, latest);
    }
    let places: Vec<u64> = state.outputs.iter().map(|o| o.index_on_chain).collect();
    let expected: Vec<u64> = (3..=60).flat_map(|h| [4 * h, 4 * h + 2]).collect();
    assert_eq!(places, expected);
}

#[test]
fn a_scan_goes_on_from_what_was_stored() {
    let before = synced(&WalletState::new(), 3, 5);
    let read = parse_state(&state_text(&before)).unwrap();
    assert_eq!(read.balance(), before.balance());
    let after = synced(&read, 3, 7);
    assert_eq!((after.outputs.len(), after.balance()), (10, Some(5 * 670)));
    assert_eq!(state_text(&after), state_text(&synced(&WalletState::new(), 3, 7)));
}

#[test]
fn a_scan_keeps_what_it_has() {
    let mut state = WalletState::new();
    scan_into(&keys(), &our_block(8), &mut state.outputs).unwrap();
    state.scanned_to = 8;
    let run = SyncRun::start(&state, 0, 9).unwrap();
    assert_eq!(run.batch(), Some((9, 9)));
    let run = run.scan(&keys(), &vec![our_block(9)]).ok().unwrap();
    assert_eq!(run.outputs().len(), 4);
    let after = run.finish().unwrap();
    assert_eq!(after.outputs.len(), 4);
    assert_eq!(after.balance(), Some(1340));
    assert_eq!(after.outputs[0].key, state.outputs[0].key);
    assert!(SyncRun::start(&state, 0, 9).unwrap().finish().is_none());
}

#[test]
fn a_failed_batch_fails_the_scan() {
    let mut b = our_block(9);
    b.transactions.clear();
    let run = SyncRun::start(&WalletState::new(), 8, 9).unwrap();
    match run.scan(&keys(), &vec![our_block(8), b]) {
        Err(ScanError::Scanner(m)) => assert!(m.contains("InvalidScannableBlock")),
        _ => panic!("scanned"),
    }
}

#[test]
fn a_batch_has_one_block_for_each_height() {
    for count in [0usize, 1, 3] {
        let run = SyncRun::start(&WalletState::new(), 8, 9).unwrap();
        let blocks = (8..8 + count).map(our_block).collect();
        assert!(matches!(run.scan(&keys(), &blocks), Err(ScanError::BlockCount)));
    }
}

#[test]
fn nothing_behind_the_start_is_nothing_to_scan() {
    assert!(SyncRun::start(&WalletState::new(), 100, 100).is_none());
    assert!(SyncRun::start(&WalletState::new(), 100, 7).is_none());
    assert_eq!(
        SyncRun::start(&WalletState::new(), usize::MAX - 1, usize::MAX).unwrap().batch(),
        Some((usize::MAX - 1, usize::MAX))
    );
}

#[test]
fn balances_beyond_the_largest_number() {
    let mut state = WalletState::new();
    scan_into(&keys(), &our_block(8), &mut state.outputs).unwrap();
    assert_eq!(state.balance(), Some(670));
    state.outputs[0].amount = u64::MAX;
    assert_eq!(state.balance(), None);
}
