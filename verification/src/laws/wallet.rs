//! Laws of what scanning finds, what a wallet owns, and what a payment does with it.
use vstd::prelude::*;

use crate::bytes;
use crate::chain::{
    self, BlockView, FoundOutput, FoundView, FullTx, FullTxView, KeysError, KeysView, PrunedTxView,
};
use crate::json::JsonView;
use crate::page;
use crate::relay::{self, Fees};
use crate::rpc::Fault;
use crate::scannable::{self, ScannableBlock, ScannableView};
use crate::select;
use crate::send::{self, FundedView, Outcome, SendError, SendFault};
use crate::sync::{self, SyncView};
use crate::text;
use crate::wallet::{self, OwnedOutput, OwnedView, WalletState};

verus! {

// ---------------------------------------------------------------------------
// Blocks, transactions and keys
// ---------------------------------------------------------------------------

/// What these values say, their fields say.
pub proof fn law_wallet_values_say_their_fields(
    o: OwnedOutput,
    f: FoundOutput,
    t: FullTx,
    b: ScannableBlock,
    w: WalletState,
)
    ensures
        o@.tx_pub_key == o.tx_pub_key@ && o@.index_in_tx == o.index_in_tx,
        o@.index_on_chain == o.index_on_chain && o@.key == o.key@,
        o@.amount == o.amount && o@.wallet_output == o.wallet_output@,
        f@.transaction == f.transaction@ && f@.index_in_tx == f.index_in_tx,
        f@.index_on_chain == f.index_on_chain && f@.key == f.key@,
        f@.amount == f.amount && f@.wallet_output == f.wallet_output@,
        t@.hash == t.hash@ && t@.blob == t.blob@,
        b@.block == b.block@ && b@.first_output == b.first_output,
        b@.transactions.len() == b.transactions@.len(),
        forall|i: int|
            0 <= i < b.transactions@.len() ==> #[trigger] b@.transactions[i] == b.transactions@[i]@,
        w@.scanned_to == w.scanned_to && w@.outputs.len() == w.outputs@.len(),
        forall|i: int| 0 <= i < w.outputs@.len() ==> #[trigger] w@.outputs[i] == w.outputs@[i]@,
{
}

/// A block says what is read from its bytes, each thing in its place.
pub proof fn law_block_says_what_is_read(blob: Seq<u8>)
    ensures
        match chain::block_read(blob) {
            Ok(read) => chain::block_of(blob) matches Ok(b) && b.blob == blob && b.number == read.0
                && b.miner_version == read.1.0 && b.miner_outputs == read.1.1 && b.miner_hash
                == read.1.2 && b.miner_extra == read.1.3 && b.transactions == read.2,
            Err(m) => chain::block_of(blob) == Err::<BlockView, Seq<char>>(m),
        },
{
}

/// Transactions say what is read from their bytes, each thing in its place.
pub proof fn law_transactions_say_what_is_read(blob: Seq<u8>)
    ensures
        match chain::pruned_read(blob) {
            Ok(read) => chain::pruned_tx_of(blob) matches Ok(t) && t.blob == blob && t.version
                == read.0 && t.outputs == read.1 && t.extra == read.2,
            Err(m) => chain::pruned_tx_of(blob) == Err::<PrunedTxView, Seq<char>>(m),
        },
        match chain::transaction_read(blob) {
            Ok(read) => chain::full_tx_of(blob) matches Ok(t) && t.hash == read.0 && t.blob == read.1,
            Err(m) => chain::full_tx_of(blob) == Err::<FullTxView, Seq<char>>(m),
        },
{
}

/// The bytes of a full transaction tell its own hash; those of a pruned one tell
/// it with the hash of what was pruned, and without it nothing.
pub proof fn law_bytes_tell_their_hash(blob: Seq<u8>, prunable: Seq<u8>, any: Option<Seq<u8>>)
    ensures
        chain::transaction_read(blob) matches Ok(read) ==> chain::told_hash(blob, any) == Some(
            read.0,
        ),
        chain::transaction_read(blob) is Err ==> chain::told_hash(blob, Some(prunable))
            == chain::pruned_hash(blob, prunable) && chain::told_hash(blob, None) is None,
{
}

/// The public key of a transaction is the first that its extra field names.
pub proof fn law_transaction_key_is_the_first(extra: Seq<u8>)
    ensures
        chain::extra_keys(extra) matches Some(list) && list.len() > 0 ==> chain::tx_key(extra)
            == Some(chain::extra_keys(extra)->0[0]),
        chain::extra_keys(extra) is None ==> chain::tx_key(extra) is None,
{
}

/// The spend key of a mainnet standard address is the one that it was made from;
/// no other address has one.
pub proof fn law_address_holds_its_spend_key(
    spend: Seq<u8>,
    view: Seq<u8>,
    checksum: Seq<u8>,
    raw: Seq<u8>,
)
    requires
        spend.len() == 32,
        view.len() == 32,
        checksum.len() == 4,
    ensures
        chain::address_spend_key(seq![0x12u8] + spend + view + checksum) == Some(spend),
        raw.len() != 69 || raw[0] != 0x12 ==> chain::address_spend_key(raw) is None,
{
    let whole = seq![0x12u8] + spend + view + checksum;
    assert(whole.subrange(1, 33) =~= spend);
}

/// Keys watch exactly where the address is a mainnet standard one whose spend key
/// is a point that makes a view pair.
pub proof fn law_keys_that_watch(spend: Seq<u8>, rest: Seq<u8>, view: Seq<u8>)
    requires
        spend.len() == 32,
        rest.len() == 36,
    ensures
        ({
            let made = chain::view_keys_of(seq![0x12u8] + spend + rest, view);
            &&& made is Ok <==> chain::edwards_point(spend) && chain::view_pair_accepted(spend, view)
            &&& made matches Ok(k) ==> k == spend
            &&& !chain::edwards_point(spend) ==> made == Err::<Seq<u8>, KeysError>(
                KeysError::BadSpendKey,
            )
            &&& chain::edwards_point(spend) && !chain::view_pair_accepted(spend, view) ==> made
                == Err::<Seq<u8>, KeysError>(KeysError::TorsionedSpendKey)
        }),
{
    let whole = seq![0x12u8] + spend + rest;
    assert(whole.subrange(1, 33) =~= spend);
}

// ---------------------------------------------------------------------------
// What scanning finds
// ---------------------------------------------------------------------------

/// Everything that was found at a place of a block is listed with its place, and
/// nothing else is.
pub proof fn law_every_place_is_listed(found: Map<u64, Seq<u8>>, first: u64, places: nat)
    requires
        first + places <= u64::MAX,
    ensures
        forall|p: u64|
            first <= p < first + places && #[trigger] found.contains_key(p) ==> chain::listed(
                found,
                first,
                places,
            ).contains((p, found[p])),
        forall|i: int|
            0 <= i < chain::listed(found, first, places).len() ==> found.contains_key(
                (#[trigger] chain::listed(found, first, places)[i]).0,
            ) && found[chain::listed(found, first, places)[i].0] == chain::listed(
                found,
                first,
                places,
            )[i].1,
    decreases places,
{
    if places > 0 {
        let less = chain::listed(found, first, (places - 1) as nat);
        let all = chain::listed(found, first, places);
        let place = (first + places - 1) as u64;
        law_every_place_is_listed(found, first, (places - 1) as nat);
        assert forall|i: int| 0 <= i < less.len() implies #[trigger] all[i] == less[i] by {}
        assert forall|p: u64|
            first <= p < first + places && #[trigger] found.contains_key(p) implies all.contains(
            (p, found[p]),
        ) by {
            if p == place {
                assert(all[all.len() - 1] == (p, found[p]));
            } else {
                let i = choose|i: int| 0 <= i < less.len() && less[i] == (p, found[p]);
                assert(all[i] == (p, found[p]));
            }
        }
        assert forall|i: int| 0 <= i < all.len() implies found.contains_key(
            (#[trigger] all[i]).0,
        ) && found[all[i].0] == all[i].1 by {
            if i < less.len() {
                assert(all[i] == less[i]);
            }
        }
    }
}

/// A found output has its place, and says what is read from its bytes.
pub proof fn law_found_output_says_what_is_read(place: u64, data: Seq<u8>)
    requires
        chain::wallet_output_read(data) is Some,
    ensures
        ({
            let read = chain::wallet_output_read(data)->0;
            let o = chain::found_at(place, data);
            &&& o.index_on_chain == place
            &&& o.wallet_output == data
            &&& o.transaction == read.0
            &&& o.index_in_tx == read.1
            &&& o.key == read.2
            &&& o.amount == read.3
        }),
{
}

/// An owned output is the found one, whatever its amount, with a transaction key.
pub open spec fn is_owned_form(o: OwnedView, f: FoundView) -> bool {
    &&& o.index_in_tx == f.index_in_tx
    &&& o.index_on_chain == f.index_on_chain
    &&& o.key == f.key
    &&& o.amount == f.amount
    &&& o.wallet_output == f.wallet_output
}

/// The sum of the amounts that were found.
pub open spec fn found_sum(found: Seq<FoundView>) -> nat
    decreases found.len(),
{
    if found.len() == 0 {
        0
    } else {
        found_sum(found.drop_last()) + found.last().amount as nat
    }
}

/// All that was found and has an amount is kept: no output is lost, none is
/// changed, and the kept ones are worth all that was found.
pub proof fn law_all_that_was_found_is_kept(s: ScannableView, found: Seq<FoundView>)
    ensures
        forall|i: int|
            0 <= i < found.len() && (#[trigger] found[i]).amount > 0 ==> wallet::kept(
                s,
                found,
            ).contains(wallet::owned(s, found[i])),
        forall|i: int| 0 <= i < found.len() ==> is_owned_form(
            wallet::owned(s, #[trigger] found[i]),
            found[i],
        ),
        wallet::amount_sum(wallet::kept(s, found)) == found_sum(found),
        forall|k: int|
            0 <= k < wallet::kept(s, found).len() ==> exists|i: int|
                0 <= i < found.len() && #[trigger] wallet::kept(s, found)[k] == wallet::owned(
                    s,
                    #[trigger] found[i],
                ),
    decreases found.len(),
{
    if found.len() > 0 {
        let less = found.drop_last();
        let last = found.last();
        let before = wallet::kept(s, less);
        let all = wallet::kept(s, found);
        law_all_that_was_found_is_kept(s, less);
        assert forall|i: int| 0 <= i < found.len() && (#[trigger] found[i]).amount > 0 implies all.contains(
            wallet::owned(s, found[i]),
        ) by {
            if i < less.len() {
                assert(less[i] == found[i]);
                let k = choose|k: int|
                    0 <= k < before.len() && before[k] == wallet::owned(s, found[i]);
                assert(all[k] == before[k]);
            } else {
                assert(all[all.len() - 1] == wallet::owned(s, last));
            }
        }
        if last.amount > 0 {
            assert(all.drop_last() =~= before);
        }
        assert forall|k: int| 0 <= k < all.len() implies exists|i: int|
            0 <= i < found.len() && #[trigger] all[k] == wallet::owned(s, #[trigger] found[i]) by {
            if k < before.len() {
                assert(all[k] == before[k]);
                let i = choose|i: int|
                    0 <= i < less.len() && before[k] == wallet::owned(s, #[trigger] less[i]);
                assert(found[i] == less[i]);
            } else {
                assert(found[found.len() - 1] == last);
            }
        }
    }
}

/// What is kept stays in the order in which it was found: finding more only adds.
pub proof fn law_found_in_order_is_kept_in_order(
    s: ScannableView,
    a: Seq<FoundView>,
    b: Seq<FoundView>,
)
    ensures
        wallet::kept(s, a + b) == wallet::kept(s, a) + wallet::kept(s, b),
    decreases b.len(),
{
    if b.len() == 0 {
        assert(a + b =~= a);
        assert(wallet::kept(s, a) + wallet::kept(s, b) =~= wallet::kept(s, a));
    } else {
        assert((a + b).drop_last() =~= a + b.drop_last());
        assert((a + b).last() == b.last());
        law_found_in_order_is_kept_in_order(s, a, b.drop_last());
        assert(wallet::kept(s, a + b) =~= wallet::kept(s, a) + wallet::kept(s, b));
    }
}

/// The transaction key of an output is that of the transaction at the place of its
/// hash in the block, or of the miner transaction; zeros stand for no key.
pub proof fn law_output_has_the_key_of_its_transaction(s: ScannableView, i: int, hash: Seq<u8>)
    requires
        s.transactions.len() == s.block.transactions.len(),
        s.block.transactions.no_duplicates(),
    ensures
        0 <= i < s.transactions.len() ==> wallet::key_in_block(s, s.block.transactions[i])
            == match chain::tx_key(s.transactions[i].extra) {
            Some(k) => k,
            None => Seq::new(32, |j: int| 0u8),
        },
        !s.block.transactions.contains(hash) && hash == s.block.miner_hash
            ==> wallet::key_in_block(s, hash) == match chain::tx_key(s.block.miner_extra) {
            Some(k) => k,
            None => Seq::new(32, |j: int| 0u8),
        },
        !s.block.transactions.contains(hash) && hash != s.block.miner_hash
            ==> wallet::key_in_block(s, hash) == Seq::new(32, |j: int| 0u8),
{
    let hashes = s.block.transactions;
    assert(wallet::no_key() =~= Seq::new(32, |j: int| 0u8));
    let miner = if hash == s.block.miner_hash {
        wallet::key_or_none(s.block.miner_extra)
    } else {
        wallet::no_key()
    };
    if 0 <= i < hashes.len() {
        let own = if hashes[i] == s.block.miner_hash {
            wallet::key_or_none(s.block.miner_extra)
        } else {
            wallet::no_key()
        };
        lemma_key_found(hashes, s.transactions, i, own);
    }
    if !hashes.contains(hash) {
        lemma_key_missing(hashes, s.transactions, hash, miner);
    }
}

proof fn lemma_key_found(hashes: Seq<Seq<u8>>, txs: Seq<PrunedTxView>, i: int, other: Seq<u8>)
    requires
        hashes.len() <= txs.len(),
        0 <= i < hashes.len(),
        hashes.no_duplicates(),
    ensures
        wallet::key_of_tx(hashes, txs, hashes[i], other) == wallet::key_or_none(txs[i].extra),
    decreases hashes.len(),
{
    if i < hashes.len() - 1 {
        let less = hashes.drop_last();
        assert(less[i] == hashes[i]);
        assert(hashes[hashes.len() - 1] != hashes[i]);
        lemma_key_found(less, txs, i, other);
    }
}

proof fn lemma_key_missing(
    hashes: Seq<Seq<u8>>,
    txs: Seq<PrunedTxView>,
    hash: Seq<u8>,
    other: Seq<u8>,
)
    requires
        !hashes.contains(hash),
    ensures
        wallet::key_of_tx(hashes, txs, hash, other) == other,
    decreases hashes.len(),
{
    if hashes.len() > 0 {
        let less = hashes.drop_last();
        assert(hashes.contains(hashes[hashes.len() - 1]));
        if less.contains(hash) {
            let i = choose|i: int| 0 <= i < less.len() && less[i] == hash;
            assert(hashes[i] == hash);
        }
        lemma_key_missing(less, txs, hash, other);
    }
}

/// Whatever the scanner finds at a place of a block, with an amount, the wallet
/// then owns: at that place, with that amount and key, and in its serialized form.
pub proof fn law_wallet_owns_what_the_scanner_finds(
    keys: KeysView,
    s: ScannableView,
    found: Map<u64, Seq<u8>>,
    place: u64,
)
    requires
        chain::scan_found(
            keys.spend,
            keys.view,
            s.block.blob,
            s.transactions.map_values(|t: PrunedTxView| t.blob),
            s.first_output,
        ) == Ok::<Map<u64, Seq<u8>>, Seq<char>>(found),
        s.first_output + scannable::block_outputs(s.block, s.transactions) <= u64::MAX,
        s.first_output <= place < s.first_output + scannable::block_outputs(
            s.block,
            s.transactions,
        ),
        found.contains_key(place),
        chain::wallet_output_read(found[place]) matches Some(read) && read.3 > 0,
    ensures
        wallet::block_owned(keys, s) is Ok,
        exists|k: int|
            0 <= k < wallet::block_owned(keys, s)->Ok_0.len() && ({
                let o = #[trigger] wallet::block_owned(keys, s)->Ok_0[k];
                let read = chain::wallet_output_read(found[place])->0;
                &&& o.index_on_chain == place
                &&& o.index_in_tx == read.1
                &&& o.key == read.2
                &&& o.amount == read.3
                &&& o.wallet_output == found[place]
                &&& o.tx_pub_key == wallet::key_in_block(s, read.0)
            }),
{
    let n = scannable::block_outputs(s.block, s.transactions);
    let list = chain::listed(found, s.first_output, n);
    let views = wallet::found_views(list);
    assert(wallet::tx_blobs(s.transactions) =~= s.transactions.map_values(
        |t: PrunedTxView| t.blob,
    ));
    law_every_place_is_listed(found, s.first_output, n);
    let i = choose|i: int| 0 <= i < list.len() && list[i] == (place, found[place]);
    assert(views[i] == chain::found_at(place, found[place]));
    law_all_that_was_found_is_kept(s, views);
    let all = wallet::kept(s, views);
    assert(all.contains(wallet::owned(s, views[i])));
    let k = choose|k: int| 0 <= k < all.len() && all[k] == wallet::owned(s, views[i]);
    assert(wallet::block_owned(keys, s)->Ok_0[k] == all[k]);
}

/// The outputs of one block are those of the block, and a scan stops at the first
/// block that cannot be scanned.
pub proof fn law_one_block_is_scanned_alone(keys: KeysView, s: ScannableView)
    ensures
        match wallet::block_owned(keys, s) {
            Ok(here) => wallet::blocks_owned(keys, seq![s]) == Ok::<Seq<OwnedView>, Seq<char>>(here),
            Err(e) => wallet::blocks_owned(keys, seq![s]) == Err::<Seq<OwnedView>, Seq<char>>(e),
        },
{
    reveal_with_fuel(wallet::blocks_owned, 2);
    assert(seq![s].drop_last() =~= Seq::<ScannableView>::empty());
    assert(seq![s].last() == s);
    match wallet::block_owned(keys, s) {
        Ok(here) => {
            assert(Seq::<OwnedView>::empty() + here =~= here);
        },
        Err(_) => {},
    }
}

/// The balance of one output is its amount.
pub proof fn law_one_output_is_worth_its_amount(o: OwnedView)
    ensures
        wallet::amount_sum(seq![o]) == o.amount,
        wallet::amount_sum(Seq::<OwnedView>::empty()) == 0,
{
    reveal_with_fuel(wallet::amount_sum, 2);
    assert(seq![o].drop_last() =~= Seq::<OwnedView>::empty());
    assert(seq![o].last() == o);
}

// ---------------------------------------------------------------------------
// Scanning up to the latest block
// ---------------------------------------------------------------------------

/// A wallet that was never scanned starts at the given height, once there is a
/// later block.
pub proof fn law_new_wallet_starts_at_the_given_height(
    outputs: Seq<OwnedView>,
    from: usize,
    latest: usize,
)
    ensures
        latest > from ==> sync::sync_started(outputs, 0, from, latest) == Some(
            SyncView { next: Some(from), latest, outputs },
        ),
        latest <= from ==> sync::sync_started(outputs, 0, from, latest) is None,
{
}

/// A batch has 51 blocks, or as many as are left.
pub proof fn law_batches_have_their_size(start: usize, latest: usize)
    requires
        start <= latest,
    ensures
        start + 50 <= latest ==> sync::batch_end(start, latest) == start + 50,
        start + 50 > latest ==> sync::batch_end(start, latest) == latest,
{
}

/// A batch is taken exactly where there is one block for each of its heights and
/// all can be scanned; it adds what these blocks hold, and the next batch begins
/// right behind it.
pub proof fn law_batch_adds_what_its_blocks_hold(
    run: SyncView,
    keys: KeysView,
    start: usize,
    blocks: Seq<ScannableView>,
    found: Seq<OwnedView>,
)
    requires
        run.next == Some(start),
        start <= run.latest,
        wallet::blocks_owned(keys, blocks) == Ok::<Seq<OwnedView>, Seq<char>>(found),
        blocks.len() == sync::batch_end(start, run.latest) - start + 1,
    ensures
        run.scanned(keys, blocks) matches Ok(then) && then.outputs == run.outputs + found
            && then.latest == run.latest && (sync::batch_end(start, run.latest) < run.latest
            ==> then.next == Some((sync::batch_end(start, run.latest) + 1) as usize)) && (
        sync::batch_end(start, run.latest) == run.latest ==> then.next is None),
{
}

/// Where a block of a batch cannot be scanned, the scan fails with what the scanner says.
pub proof fn law_unscannable_batches_are_refused(
    run: SyncView,
    keys: KeysView,
    start: usize,
    blocks: Seq<ScannableView>,
    message: Seq<char>,
)
    requires
        run.next == Some(start),
        wallet::blocks_owned(keys, blocks) == Err::<Seq<OwnedView>, Seq<char>>(message),
        blocks.len() == sync::batch_end(start, run.latest) - start + 1,
    ensures
        run.scanned(keys, blocks) == Err::<SyncView, sync::ScanFault>(
            sync::ScanFault::Scanner(message),
        ),
{
}

/// A batch with another number of blocks is refused.
pub proof fn law_short_batches_are_refused(
    run: SyncView,
    keys: KeysView,
    start: usize,
    blocks: Seq<ScannableView>,
)
    requires
        run.next == Some(start),
        blocks.len() != sync::batch_end(start, run.latest) - start + 1,
    ensures
        run.scanned(keys, blocks) is Err,
{
}

// ---------------------------------------------------------------------------
// Payments
// ---------------------------------------------------------------------------

/// The amounts of outputs are theirs, in order, and indexes are worth the amounts
/// that they stand for.
pub proof fn law_amounts_are_those_of_the_outputs(
    outputs: Seq<OwnedView>,
    i: int,
    list: Seq<int>,
    amounts: Seq<u64>,
    x: int,
)
    ensures
        select::amounts(outputs).len() == outputs.len(),
        0 <= i < outputs.len() ==> select::amounts(outputs)[i] == outputs[i].amount,
        select::sum_at(Seq::<int>::empty(), amounts) == 0,
        select::sum_at(list.push(x), amounts) == select::sum_at(list, amounts) + amounts[x],
{
    assert(list.push(x).drop_last() =~= list);
}

/// In the order of amounts no smaller one comes before a larger one, and of equal
/// ones the earlier comes first.
pub proof fn law_larger_amounts_come_first(amounts: Seq<u64>, i: int, j: int)
    requires
        0 <= i < j < amounts.len(),
    ensures
        select::order(amounts).len() == amounts.len(),
        amounts[select::order(amounts)[i]] >= amounts[select::order(amounts)[j]],
        amounts[select::order(amounts)[i]] == amounts[select::order(amounts)[j]]
            ==> select::order(amounts)[i] < select::order(amounts)[j],
{
    select::law_order_names_each_once(amounts);
    select::law_order_is_sorted(amounts);
    let all = select::order(amounts);
    assert(amounts[all[i]] > amounts[all[j]] || (amounts[all[i]] == amounts[all[j]] && all[i]
        < all[j]));
}

/// The inputs of a payment are outputs of the wallet, the largest ones: no output
/// that is left out is worth more than one that is taken, and each is taken at
/// most once.
pub proof fn law_inputs_are_the_largest_outputs(outputs: Seq<OwnedView>, count: int, i: int) -> (r:
    Seq<int>)
    requires
        0 <= i < count <= outputs.len(),
    ensures
        r.len() == count,
        r.no_duplicates(),
        forall|j: int| 0 <= j < count ==> 0 <= #[trigger] r[j] < outputs.len(),
        send::first_outputs(outputs, count).len() == count,
        send::first_outputs(outputs, count)[i] == outputs[r[i]],
        send::serialized(send::first_outputs(outputs, count))[i] == outputs[r[i]].wallet_output,
        forall|x: int|
            0 <= x < outputs.len() && !r.contains(x) ==> (#[trigger] outputs[x]).amount
                <= outputs[r[i]].amount,
{
    let amounts = select::amounts(outputs);
    let all = select::order(amounts);
    let r = all.take(count);
    select::law_order_names_each_once(amounts);
    select::law_order_is_sorted(amounts);
    assert forall|j: int| 0 <= j < count implies 0 <= #[trigger] r[j] < outputs.len() by {
        assert(0 <= all[j] < amounts.len());
    }
    assert forall|x: int| 0 <= x < outputs.len() && !r.contains(x) implies (
    #[trigger] outputs[x]).amount <= outputs[r[i]].amount by {
        assert(all.contains(x));
        let k = choose|k: int| 0 <= k < all.len() && all[k] == x;
        if k < count {
            assert(r[k] == x);
        }
        assert(amounts[all[i]] >= amounts[all[k]]);
    }
    r
}

/// A payment is refused before its outputs are selected exactly where the wallet
/// owns nothing, or the destination is not valid or no mainnet address.
pub proof fn law_destinations_are_checked(outputs: nat, valid: bool, mainnet: Result<(), Seq<char>>)
    ensures
        send::destination_fault(outputs, valid, mainnet) is None <==> outputs > 0 && valid
            && mainnet is Ok,
        outputs == 0 ==> send::destination_fault(outputs, valid, mainnet) == Some(
            SendFault::NoOutputs,
        ),
        outputs > 0 && !valid ==> send::destination_fault(outputs, valid, mainnet) == Some(
            SendFault::BadAddress,
        ),
        outputs > 0 && valid ==> (mainnet matches Err(m) ==> send::destination_fault(
            outputs,
            valid,
            mainnet,
        ) == Some(SendFault::DestinationParse(m))),
{
}

/// A payment is funded exactly where the estimate gives a rate of at most 10000
/// per weight and the outputs are worth the amount; the rate is that of the estimate.
pub proof fn law_payments_are_funded(
    outputs: Seq<OwnedView>,
    amount: u64,
    reply: JsonView,
    rate: Fees,
)
    requires
        relay::fee_rate_in(reply) == Ok::<Fees, Fault>(rate),
    ensures
        rate.per_weight <= 10_000 && wallet::amount_sum(outputs) >= amount ==> send::funds(
            outputs,
            amount,
            reply,
        ) == Ok::<Fees, SendFault>(rate),
        rate.per_weight > 10_000 ==> send::funds(outputs, amount, reply) == Err::<Fees, SendFault>(
            SendFault::Fee(Fault::InvalidFee),
        ),
        rate.per_weight <= 10_000 && wallet::amount_sum(outputs) < amount ==> send::funds(
            outputs,
            amount,
            reply,
        ) == Err::<Fees, SendFault>(
            SendFault::InsufficientFunds { available: wallet::amount_sum(outputs) },
        ),
{
}

/// The unsigned transaction of a payment is what the builder makes for exactly its
/// destination and exactly its amount, from exactly the rings given, at exactly
/// its rate.
pub proof fn law_transaction_pays_what_was_asked(
    p: FundedView,
    keys: KeysView,
    rings: Seq<Seq<u8>>,
    payload: Seq<u8>,
)
    requires
        p.built(keys, rings) == Ok::<Seq<u8>, SendFault>(payload),
    ensures
        send::unsigned_built(
            keys.spend,
            keys.view,
            rings,
            p.to,
            p.amount,
            p.fees.per_weight,
            p.fees.mask,
        ) == Ok::<Seq<u8>, (Option<u64>, Seq<char>)>(payload),
        rings.len() == p.inputs.len(),
{
}

/// Where the builder makes a transaction from rings that fit the inputs, the
/// payment is that transaction; where it does not, the payment says why.
pub proof fn law_builder_decides(p: FundedView, keys: KeysView, rings: Seq<Seq<u8>>)
    requires
        rings.len() == p.inputs.len(),
        rings.len() <= p.spent().len(),
        forall|i: int|
            0 <= i < rings.len() ==> send::ring_read(#[trigger] rings[i]) == Ok::<
                (Seq<u8>, u64),
                Seq<char>,
            >((p.spent()[i].key, p.spent()[i].amount)),
    ensures
        match send::unsigned_built(
            keys.spend,
            keys.view,
            rings,
            p.to,
            p.amount,
            p.fees.per_weight,
            p.fees.mask,
        ) {
            Ok(payload) => p.built(keys, rings) == Ok::<Seq<u8>, SendFault>(payload),
            Err((Some(fee), _)) => p.built(keys, rings) == Err::<Seq<u8>, SendFault>(
                SendFault::WantOfFunds { fee },
            ),
            Err((None, m)) => p.built(keys, rings) == Err::<Seq<u8>, SendFault>(
                SendFault::Build(m),
            ),
        },
{
    lemma_rings_fit(rings, p.spent());
}

proof fn lemma_rings_fit(rings: Seq<Seq<u8>>, outputs: Seq<OwnedView>)
    requires
        rings.len() <= outputs.len(),
        forall|i: int|
            0 <= i < rings.len() ==> send::ring_read(#[trigger] rings[i]) == Ok::<
                (Seq<u8>, u64),
                Seq<char>,
            >((outputs[i].key, outputs[i].amount)),
    ensures
        send::rings_fault(rings, outputs) is None,
    decreases rings.len(),
{
    if rings.len() > 0 {
        let less = rings.drop_last();
        assert forall|i: int| 0 <= i < less.len() implies send::ring_read(#[trigger] less[i])
            == Ok::<(Seq<u8>, u64), Seq<char>>((outputs[i].key, outputs[i].amount)) by {
            assert(less[i] == rings[i]);
        }
        lemma_rings_fit(less, outputs);
        assert(rings.last() == rings[rings.len() - 1]);
    }
}

/// A ring that is not that of its input is refused, wherever it stands.
pub proof fn law_foreign_rings_are_refused(
    rings: Seq<Seq<u8>>,
    outputs: Seq<OwnedView>,
    i: int,
)
    requires
        0 <= i < rings.len() <= outputs.len(),
        send::ring_read(rings[i]) != Ok::<(Seq<u8>, u64), Seq<char>>(
            (outputs[i].key, outputs[i].amount),
        ),
    ensures
        send::rings_fault(rings, outputs) is Some,
    decreases rings.len(),
{
    if i < rings.len() - 1 {
        assert(rings.drop_last()[i] == rings[i]);
        law_foreign_rings_are_refused(rings.drop_last(), outputs, i);
    } else {
        assert(rings.last() == rings[i]);
    }
}

/// What a try builds pays the destination and the amount of the payment; a payment
/// that goes on keeps both, and everything that it can be made from.
pub proof fn law_tries_keep_the_payment(
    p: FundedView,
    keys: KeysView,
    rings: Seq<Seq<u8>>,
    outcome: Outcome,
)
    requires
        p.tried(keys, rings, outcome),
    ensures
        outcome matches Outcome::Built { to, amount, inputs, payload } ==> to == p.to && amount
            == p.amount && inputs == p.inputs.len() && send::unsigned_built(
            keys.spend,
            keys.view,
            rings,
            to,
            amount,
            p.fees.per_weight,
            p.fees.mask,
        ) == Ok::<Seq<u8>, (Option<u64>, Seq<char>)>(payload),
        outcome matches Outcome::More(next) ==> next.to == p.to && next.amount == p.amount
            && next.outputs == p.outputs && next.fees == p.fees,
{
}

/// A payment that goes on with a fee has more inputs than before, the earlier ones
/// first, and they are worth the amount and the fee; without the last of them they
/// are not.
pub proof fn law_more_inputs_cover_the_fee(p: FundedView, fee: u64, next: FundedView)
    requires
        p.goes_on(fee, next),
    ensures
        next.inputs.len() > p.inputs.len(),
        forall|i: int| 0 <= i < p.inputs.len() ==> #[trigger] next.inputs[i] == p.inputs[i],
        next.inputs.len() <= p.outputs.len(),
        next.fee == fee,
        wallet::amount_sum(send::first_outputs(p.outputs, next.inputs.len() as int)) >= p.amount
            + fee,
        wallet::amount_sum(send::first_outputs(p.outputs, next.inputs.len() - 1)) < p.amount + fee,
        next.inputs == send::serialized(
            send::first_outputs(p.outputs, next.inputs.len() as int),
        ),
        next.covers(fee),
{
    let n = next.inputs.len() as int;
    let amounts = select::amounts(p.outputs);
    send::lemma_spent_sum(p.outputs, n);
    send::lemma_spent_sum(p.outputs, n - 1);
    assert(select::sum_at(select::order(amounts).take(n - 1), amounts) < p.amount + fee);
    assert forall|i: int| 0 <= i < p.inputs.len() implies #[trigger] next.inputs[i]
        == p.inputs[i] by {
        assert(next.inputs.take(p.inputs.len() as int)[i] == next.inputs[i]);
    }
}

/// A payment is well funded only by outputs that are worth its amount and its fee,
/// and by no more of them than that takes.
pub proof fn law_funded_payment_is_covered(p: FundedView)
    requires
        p.well_formed(),
        p.amount > 0,
    ensures
        p.covers(p.fee),
        wallet::amount_sum(p.spent()) >= p.amount + p.fee,
        p.inputs.len() > 0,
        wallet::amount_sum(send::first_outputs(p.outputs, p.inputs.len() - 1)) < p.amount + p.fee,
        p.inputs.len() <= p.outputs.len(),
        p.inputs == send::serialized(p.spent()),
        p.spent() == send::first_outputs(p.outputs, p.inputs.len() as int),
        send::mainnet_address(p.to) is Ok,
        p.fees.per_weight > 0,
        p.fees.mask > 0,
{
    let n = p.inputs.len() as int;
    let amounts = select::amounts(p.outputs);
    select::law_order_names_each_once(amounts);
    send::law_selection_covers_the_amount(amounts, p.amount, p.fee, n);
    send::lemma_spent_sum(p.outputs, n);
    send::lemma_spent_sum(p.outputs, n - 1);
    assert(select::sum_at(select::order(amounts).take(n - 1), amounts) < p.amount + p.fee);
}

/// A fee that the outputs cover is never a reason to fail, and one that they do not
/// is answered with what they are worth.
pub proof fn law_want_of_funds_is_answered(
    p: FundedView,
    keys: KeysView,
    rings: Seq<Seq<u8>>,
    outcome: Outcome,
    fee: u64,
)
    requires
        p.tried(keys, rings, outcome),
        p.built(keys, rings) == Err::<Seq<u8>, SendFault>(SendFault::WantOfFunds { fee }),
    ensures
        wallet::amount_sum(p.outputs) >= p.amount + fee ==> outcome is More,
        wallet::amount_sum(p.outputs) < p.amount + fee ==> outcome == Outcome::Failed(
            SendFault::InsufficientFunds { available: wallet::amount_sum(p.outputs) },
        ),
{
}

/// An envelope is served exactly where its bytes fit in a code, and then the page
/// shows that code and the envelope; otherwise the error names its size.
pub proof fn law_envelope_is_served(
    r: Result<String, SendError>,
    amount: Seq<char>,
    to: Seq<char>,
    inputs: nat,
    raw: Seq<u8>,
)
    requires
        send::serves(r, amount, to, inputs, "xmr-txunsigned:"@ + bytes::hex_text(raw)),
    ensures
        r is Ok <==> raw.len() <= 1663,
        r matches Ok(html) ==> page::qr_modules(raw) is Some && html@ == page::page_text(
            "xmxx send — scan with Prime"@,
            page::send_body(
                amount,
                to,
                inputs,
                page::qr_text(page::qr_modules(raw)),
                "xmr-txunsigned:"@ + bytes::hex_text(raw),
            ),
        ),
        r matches Err(e) ==> e@ == (SendFault::TooBig { size: raw.len() }),
{
    send::law_envelope_reads_back(raw);
}

/// What an error of a payment says, it says as it is.
pub proof fn law_payment_errors_say_what_they_are(e: SendError)
    ensures
        e matches SendError::DestinationParse(m) ==> e@ == SendFault::DestinationParse(m@),
        e matches SendError::Fee(f) ==> e@ == SendFault::Fee(f@),
        e matches SendError::InsufficientFunds { available } ==> e@ == (
        SendFault::InsufficientFunds { available: available as nat }),
        e matches SendError::Ring(m) ==> e@ == SendFault::Ring(m@),
        e matches SendError::WantOfFunds { fee } ==> e@ == (SendFault::WantOfFunds { fee }),
        e matches SendError::Build(m) ==> e@ == SendFault::Build(m@),
        e matches SendError::TooBig { size } ==> e@ == (SendFault::TooBig { size: size as nat }),
        e is ZeroAmount <==> e@ is ZeroAmount,
        e is NoOutputs <==> e@ is NoOutputs,
        e is BadAddress <==> e@ is BadAddress,
        e is RingCount <==> e@ is RingCount,
        e is ForeignRing <==> e@ is ForeignRing,
{
}

/// Behind the prefix only hexadecimal is taken.
pub proof fn law_bad_hexadecimal_is_not_signed(rest: Seq<char>, e: bytes::HexError)
    requires
        rest.len() > 0,
        !text::white_space(rest.last()),
        bytes::hex_decoded_text(rest) == Err::<Seq<u8>, bytes::HexError>(e),
    ensures
        send::signed_tx("xmr-txsigned:"@ + rest) == Err::<FullTxView, send::SignedFault>(
            send::SignedFault::Hex(e),
        ),
{
    reveal_strlit("xmr-txsigned:");
    let prefix = "xmr-txsigned:"@;
    let whole = prefix + rest;
    assert(whole[0] == 'x');
    assert(whole.last() == rest.last());
    text::law_trim_keeps(whole);
    assert(whole.take(prefix.len() as int) =~= prefix);
    assert(whole.skip(prefix.len() as int) =~= rest);
}

/// A text without the prefix is a signed transaction as it is, but for the space
/// around it.
pub proof fn law_other_texts_are_taken_as_they_are(body: Seq<char>)
    requires
        text::stripped(text::trimmed(body), "xmr-txsigned:"@) is None,
    ensures
        send::signed_bytes(body) == Ok::<Seq<u8>, bytes::HexError>(
            vstd::utf8::encode_utf8(text::trimmed(body)),
        ),
{
}

/// An envelope without the prefix is read as hexadecimal as it is, and one that is
/// no hexadecimal holds nothing.
pub proof fn law_envelopes_are_read(raw: Seq<u8>, envelope: Seq<char>)
    ensures
        send::envelope_bytes(bytes::hex_text(raw)) == raw,
        text::stripped(envelope, "xmr-txunsigned:"@) is None && bytes::hex_decoded_text(
            envelope,
        ) is Err ==> send::envelope_bytes(envelope).len() == 0,
{
    reveal_strlit("xmr-txunsigned:");
    let hex = bytes::hex_text(raw);
    let prefix = "xmr-txunsigned:"@;
    if text::stripped(hex, prefix) is Some {
        assert(hex.take(prefix.len() as int)[0] == 'x');
        assert(hex[0] == 'x');
        assert(0 <= raw[0] as int / 16 < 16);
    }
    bytes::law_hex_reads_back(raw);
}

/// A signed transaction is the one whose bytes the text holds, with the hash of
/// those bytes.
pub proof fn law_signed_transaction_is_the_one_given(raw: Seq<u8>)
    ensures
        match chain::transaction_read(raw) {
            Ok(read) => send::signed_tx("xmr-txsigned:"@ + bytes::hex_text(raw)) matches Ok(tx)
                && tx.hash == read.0 && tx.blob == read.1,
            Err(m) => send::signed_tx("xmr-txsigned:"@ + bytes::hex_text(raw)) == Err::<
                FullTxView,
                send::SignedFault,
            >(send::SignedFault::Parse(m)),
        },
{
    send::law_signed_reads_back(raw);
}

} // verus!
