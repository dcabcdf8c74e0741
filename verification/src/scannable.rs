//! Blocks made ready for the scanner: their transactions, and where among the
//! chain's RingCT outputs the outputs of each block begin.
use vstd::prelude::*;

use crate::chain::{BlockInfo, BlockView, PrunedTx, PrunedTxView};
use crate::fetch::{FetchedBlock, FetchedView};
use crate::json::{Json, JsonView};
use crate::list;
use crate::rpc::{self, DaemonRpc, Fault, Request, RpcError};

verus! {

/// A block that can be scanned.
pub struct ScannableBlock {
    pub block: BlockInfo,
    pub transactions: Vec<PrunedTx>,
    /// How many RingCT outputs are counted before this block.
    pub first_output: u64,
}

/// What such a block says.
#[verifier::ext_equal]
pub struct ScannableView {
    pub block: BlockView,
    pub transactions: Seq<PrunedTxView>,
    pub first_output: u64,
}

impl View for ScannableBlock {
    type V = ScannableView;

    open spec fn view(&self) -> ScannableView {
        ScannableView {
            block: self.block@,
            transactions: list::views(self.transactions@),
            first_output: self.first_output,
        }
    }
}

/// How many RingCT outputs some transactions make: all the outputs of those of
/// version two, and no others.
pub open spec fn ringct_outputs(txs: Seq<PrunedTxView>) -> nat
    decreases txs.len(),
{
    if txs.len() == 0 {
        0
    } else {
        ringct_outputs(txs.drop_last()) + if txs.last().version == 2 {
            txs.last().outputs as nat
        } else {
            0
        }
    }
}

/// How many RingCT outputs a block makes: those of its transactions, and those of
/// its miner transaction where that is of version two.
pub open spec fn block_outputs(block: BlockView, txs: Seq<PrunedTxView>) -> nat {
    ringct_outputs(txs) + if block.miner_version == 2 {
        block.miner_outputs as nat
    } else {
        0
    }
}

/// How many RingCT outputs some blocks make.
pub open spec fn ringct_total(blocks: Seq<FetchedView>) -> nat
    decreases blocks.len(),
{
    if blocks.len() == 0 {
        0
    } else {
        ringct_total(blocks.drop_last()) + block_outputs(blocks.last().block, blocks.last().txs)
    }
}

/// The transactions that the scanner takes: those that are not of version one.
pub open spec fn scannable_txs(txs: Seq<PrunedTxView>) -> Seq<PrunedTxView> {
    txs.filter(|t: PrunedTxView| t.version != 1)
}

/// A block made ready, with so many RingCT outputs before it.
pub open spec fn scannable(fetched: FetchedView, before: nat) -> ScannableView {
    ScannableView {
        block: fetched.block,
        transactions: scannable_txs(fetched.txs),
        first_output: before as u64,
    }
}

/// Blocks made ready, with so many RingCT outputs before the first of them.
pub open spec fn scannables(blocks: Seq<FetchedView>, before: nat) -> Seq<ScannableView> {
    Seq::new(
        blocks.len(),
        |i: int| scannable(blocks[i], before + ringct_total(blocks.take(i))),
    )
}

/// The count of RingCT outputs in the last entry of a cumulative distribution.
pub open spec fn count_in(reply: JsonView) -> Result<u64, Fault> {
    match rpc::distribution_in(reply) {
        Err(f) => Err(f),
        Ok(v) => Ok(
            if v.len() == 0 {
                0
            } else {
                v.last()
            },
        ),
    }
}

/// The count at a height that is known without asking: the cached one for that
/// height, and none at height zero.
pub open spec fn known_count(cache: Option<(usize, u64)>, height: usize) -> Option<u64> {
    match cache {
        Some(p) => if p.0 == height {
            Some(p.1)
        } else if height == 0 {
            Some(0)
        } else {
            None
        },
        None => if height == 0 {
            Some(0)
        } else {
            None
        },
    }
}

/// The height before a range of blocks; that of the first block has none before it.
pub open spec fn height_before(start: usize) -> usize {
    if start == 0 {
        0
    } else {
        (start - 1) as usize
    }
}

/// How the count of RingCT outputs before a range is come by.
#[derive(Debug)]
pub enum CountBefore {
    /// It is known.
    Known(u64),
    /// The reply to a request tells the count at a height.
    Ask { height: usize, request: Request },
}

/// Prefixes of a list of blocks make no more outputs than the list.
proof fn lemma_total_grows(blocks: Seq<FetchedView>, i: int)
    requires
        0 <= i <= blocks.len(),
    ensures
        ringct_total(blocks.take(i)) <= ringct_total(blocks),
    decreases blocks.len() - i,
{
    if i == blocks.len() {
        assert(blocks.take(i) =~= blocks);
    } else {
        assert(blocks.take(i + 1).drop_last() =~= blocks.take(i));
        lemma_total_grows(blocks, i + 1);
    }
}

/// Prefixes of a list of transactions make no more outputs than the list.
proof fn lemma_outputs_grow(txs: Seq<PrunedTxView>, i: int)
    requires
        0 <= i <= txs.len(),
    ensures
        ringct_outputs(txs.take(i)) <= ringct_outputs(txs),
    decreases txs.len() - i,
{
    if i == txs.len() {
        assert(txs.take(i) =~= txs);
    } else {
        assert(txs.take(i + 1).drop_last() =~= txs.take(i));
        lemma_outputs_grow(txs, i + 1);
    }
}

/// One block more.
proof fn lemma_total_step(blocks: Seq<FetchedView>, i: int)
    requires
        0 <= i < blocks.len(),
    ensures
        ringct_total(blocks.take(i + 1)) == ringct_total(blocks.take(i)) + block_outputs(
            blocks[i].block,
            blocks[i].txs,
        ),
{
    assert(blocks.take(i + 1).drop_last() =~= blocks.take(i));
    assert(blocks.take(i + 1).last() == blocks[i]);
}

/// Adds the RingCT outputs of a block to a count; `None` where the sum exceeds the
/// largest `u64`.
fn add_block_outputs(count: u64, block: &BlockInfo, txs: &Vec<PrunedTx>) -> (r: Option<u64>)
    ensures
        match r {
            Some(n) => n == count + block_outputs(block@, list::views(txs@)),
            None => count + block_outputs(block@, list::views(txs@)) > u64::MAX,
        },
{
    let ghost all = list::views(txs@);
    let mut running: u64 = count;
    if block.miner_version() == 2 {
        match running.checked_add(block.miner_outputs() as u64) {
            None => {
                return None;
            },
            Some(n) => {
                running = n;
            },
        }
    }
    let ghost first = running;
    let mut i: usize = 0;
    assert(all.take(0) =~= Seq::<PrunedTxView>::empty());
    while i < txs.len()
        invariant
            i <= txs.len(),
            all == list::views(txs@),
            running == first + ringct_outputs(all.take(i as int)),
            count + block_outputs(block@, all) == first + ringct_outputs(all),
        decreases txs.len() - i,
    {
        proof {
            assert(all.take(i + 1).drop_last() =~= all.take(i as int));
            assert(all.take(i + 1).last() == txs[i as int]@);
            lemma_outputs_grow(all, i + 1);
        }
        if txs[i].version() == 2 {
            match running.checked_add(txs[i].outputs() as u64) {
                None => {
                    return None;
                },
                Some(n) => {
                    running = n;
                },
            }
        }
        i += 1;
    }
    assert(all.take(txs.len() as int) =~= all);
    Some(running)
}

/// Keeps the transactions that the scanner takes.
fn keep_scannable(txs: Vec<PrunedTx>) -> (r: Vec<PrunedTx>)
    ensures
        list::views(r@) == scannable_txs(list::views(txs@)),
{
    let ghost all = list::views(txs@);
    let ghost takes = |t: PrunedTxView| t.version != 1;
    let mut out: Vec<PrunedTx> = Vec::new();
    proof {
        reveal(Seq::filter);
        assert(all.take(0) =~= Seq::<PrunedTxView>::empty());
        assert(all.take(0).filter(takes) =~= Seq::<PrunedTxView>::empty());
        assert(list::views(out@) =~= Seq::<PrunedTxView>::empty());
    }
    for tx in it: txs
        invariant
            it.seq() == txs@,
            all == list::views(txs@),
            takes == (|t: PrunedTxView| t.version != 1),
            list::views(out@) == all.take(it.index() as int).filter(takes),
    {
        proof {
            reveal(Seq::filter);
            let i = it.index() as int;
            assert(all.take(i + 1).drop_last() =~= all.take(i));
            assert(all.take(i + 1).last() == tx@);
        }
        let ghost before = list::views(out@);
        if tx.version() != 1 {
            out.push(tx);
            assert(list::views(out@) =~= before.push(tx@));
        }
    }
    assert(all.take(txs@.len() as int) =~= all);
    out
}

impl DaemonRpc {
    /// The count of RingCT outputs in the blocks up to a height, where it is known
    /// without asking. Where it is not, the distribution from height zero to that
    /// height tells it.
    pub fn ringct_count_at(&mut self, height: usize) -> (r: Option<u64>)
        ensures
            r == known_count(old(self).ringct_at, height),
            final(self).url == old(self).url,
            final(self).ringct_at == match r {
                Some(c) => Some((height, c)),
                None => old(self).ringct_at,
            },
    {
        match self.ringct_at {
            Some(p) => {
                if p.0 == height {
                    return Some(p.1);
                }
            },
            None => {},
        }
        if height == 0 {
            self.ringct_at = Some((0, 0));
            return Some(0);
        }
        None
    }

    /// The count of RingCT outputs in the blocks up to a height, as the
    /// distribution from height zero to that height tells it. It is kept.
    pub fn ringct_count_reply(&mut self, height: usize, reply: &Json) -> (r: Result<u64, RpcError>)
        ensures
            match r {
                Ok(c) => count_in(reply@) == Ok::<u64, Fault>(c),
                Err(e) => count_in(reply@) == Err::<u64, Fault>(e@),
            },
            final(self).url == old(self).url,
            final(self).ringct_at == match r {
                Ok(c) => Some((height, c)),
                Err(_) => old(self).ringct_at,
            },
    {
        match DaemonRpc::distribution_(reply) {
            Err(e) => Err(e),
            Ok(dist) => {
                let c: u64 = if dist.len() == 0 {
                    0
                } else {
                    dist[dist.len() - 1]
                };
                self.ringct_at = Some((height, c));
                Ok(c)
            },
        }
    }

    /// The count of RingCT outputs before a range of blocks, or what is to be asked for it.
    pub fn ringct_count_before(&mut self, start: usize) -> (r: CountBefore)
        ensures
            final(self).url == old(self).url,
            ({
                let height = height_before(start);
                match r {
                    CountBefore::Known(c) => known_count(old(self).ringct_at, height) == Some(c)
                        && final(self).ringct_at == Some((height, c)),
                    CountBefore::Ask { height: h, request } => known_count(
                        old(self).ringct_at,
                        height,
                    ) is None && h == height && request@ == rpc::distribution_call(
                        old(self).url@,
                        0,
                        height,
                    ) && final(self).ringct_at == old(self).ringct_at,
                }
            }),
    {
        let height: usize = start.saturating_sub(1);
        match self.ringct_count_at(height) {
            Some(c) => CountBefore::Known(c),
            None => CountBefore::Ask { height, request: self.distribution_request(0, height) },
        }
    }

    /// Advances the count that is kept: the count at the end of a range is the one
    /// before it and the RingCT outputs in it. A sum beyond the largest `u64` is
    /// refused, and the count stays.
    pub fn advance_ringct_count(&mut self, end: usize, pre: u64, ringct_in_range: u64) -> (r:
        Result<(), RpcError>)
        ensures
            final(self).url == old(self).url,
            match r {
                Ok(_) => pre + ringct_in_range <= u64::MAX && final(self).ringct_at == Some(
                    (end, (pre + ringct_in_range) as u64),
                ),
                Err(e) => {
                    &&& pre + ringct_in_range > u64::MAX
                    &&& e@ == Fault::CountOverflow
                    &&& final(self).ringct_at == old(self).ringct_at
                },
            },
    {
        match pre.checked_add(ringct_in_range) {
            None => Err(RpcError::CountOverflow),
            Some(n) => {
                self.ringct_at = Some((end, n));
                Ok(())
            },
        }
    }

    /// Makes the blocks of a range ready, given the count of RingCT outputs before
    /// the range, and keeps the count behind it. Sums beyond the largest `u64` are
    /// refused, and the count that was kept stays.
    pub fn contiguous_scannable_blocks(&mut self, pre: u64, blocks: Vec<FetchedBlock>) -> (r: Result<
        Vec<ScannableBlock>,
        RpcError,
    >)
        ensures
            final(self).url == old(self).url,
            ({
                let all = list::views(blocks@);
                let total = ringct_total(all);
                match r {
                    Ok(v) => {
                        &&& pre + total <= u64::MAX
                        &&& list::views(v@) == scannables(all, pre as nat)
                        &&& final(self).ringct_at == if all.len() == 0 {
                            old(self).ringct_at
                        } else {
                            Some((all.last().block.number, (pre + total) as u64))
                        }
                    },
                    Err(e) => {
                        &&& pre + total > u64::MAX
                        &&& e@ == Fault::CountOverflow
                        &&& final(self).ringct_at == old(self).ringct_at
                    },
                }
            }),
    {
        let ghost all = list::views(blocks@);
        let mut running: u64 = pre;
        let mut last: Option<usize> = None;
        let mut out: Vec<ScannableBlock> = Vec::new();
        assert(all.take(0) =~= Seq::<FetchedView>::empty());
        for fetched in it: blocks
            invariant
                it.seq() == blocks@,
                all == list::views(blocks@),
                running == pre + ringct_total(all.take(it.index() as int)),
                last == if it.index() == 0 {
                    None
                } else {
                    Some(all[it.index() - 1].block.number)
                },
                out.len() == it.index(),
                forall|j: int|
                    0 <= j < out.len() ==> (#[trigger] out@[j])@ == scannable(
                        all[j],
                        pre as nat + ringct_total(all.take(j)),
                    ),
                *self == *old(self),
        {
            let ghost i = it.index() as int;
            proof {
                assert(all[i] == fetched@);
                lemma_total_step(all, i);
                lemma_total_grows(all, i + 1);
            }
            let first: u64 = running;
            match add_block_outputs(running, &fetched.block, &fetched.txs) {
                None => {
                    return Err(RpcError::CountOverflow);
                },
                Some(n) => {
                    running = n;
                },
            }
            last = Some(fetched.block.number());
            let FetchedBlock { block, txs } = fetched;
            let transactions: Vec<PrunedTx> = keep_scannable(txs);
            let one: ScannableBlock = ScannableBlock { block, transactions, first_output: first };
            assert(one@ == scannable(all[i], pre as nat + ringct_total(all.take(i))));
            out.push(one);
        }
        assert(all.take(blocks@.len() as int) =~= all);
        assert(list::views(out@) =~= scannables(all, pre as nat));
        match last {
            None => Ok(out),
            Some(number) => match self.advance_ringct_count(number, pre, running - pre) {
                Err(e) => Err(e),
                Ok(_) => Ok(out),
            },
        }
    }

    /// Makes one block ready, given the count of RingCT outputs before it, and keeps
    /// the count behind it. A sum beyond the largest `u64` is refused, and the count
    /// that was kept stays.
    pub fn scannable_block(&mut self, block: BlockInfo, txs: Vec<PrunedTx>, pre: u64) -> (r: Result<
        ScannableBlock,
        RpcError,
    >)
        ensures
            final(self).url == old(self).url,
            ({
                let after = pre + block_outputs(block@, list::views(txs@));
                match r {
                    Ok(s) => {
                        &&& after <= u64::MAX
                        &&& s@ == scannable(
                            FetchedView { block: block@, txs: list::views(txs@) },
                            pre as nat,
                        )
                        &&& final(self).ringct_at == Some((block@.number, after as u64))
                    },
                    Err(e) => {
                        &&& after > u64::MAX
                        &&& e@ == Fault::CountOverflow
                        &&& final(self).ringct_at == old(self).ringct_at
                    },
                }
            }),
    {
        let ringct: u64 = match add_block_outputs(0, &block, &txs) {
            None => {
                return Err(RpcError::CountOverflow);
            },
            Some(n) => n,
        };
        match self.advance_ringct_count(block.number(), pre, ringct) {
            Err(e) => Err(e),
            Ok(_) => {
                let transactions: Vec<PrunedTx> = keep_scannable(txs);
                Ok(ScannableBlock { block, transactions, first_output: pre })
            },
        }
    }
}

// ---------------------------------------------------------------------------
// Laws
// ---------------------------------------------------------------------------

/// The transactions that the scanner does not take make no RingCT outputs.
pub proof fn law_scanner_takes_all_outputs(txs: Seq<PrunedTxView>)
    ensures
        ringct_outputs(scannable_txs(txs)) == ringct_outputs(txs),
    decreases txs.len(),
{
    reveal(Seq::filter);
    if txs.len() > 0 {
        law_scanner_takes_all_outputs(txs.drop_last());
        let less = scannable_txs(txs.drop_last());
        if txs.last().version != 1 {
            assert(scannable_txs(txs) =~= less.push(txs.last()));
            assert(less.push(txs.last()).drop_last() =~= less);
        } else {
            assert(scannable_txs(txs) =~= less);
        }
    } else {
        assert(scannable_txs(txs) =~= txs);
    }
}

/// The block at a height of a chain, made ready with the count of the RingCT
/// outputs in all blocks before it.
pub open spec fn ready_at(chain: Seq<FetchedView>, height: int) -> ScannableView {
    scannable(chain[height], ringct_total(chain.take(height)))
}

/// Of a chain made ready, each block begins where the one before it ends.
pub proof fn law_chain_is_counted(chain: Seq<FetchedView>, height: int)
    requires
        0 <= height < chain.len(),
        ringct_total(chain) <= u64::MAX,
    ensures
        ({
            let here = ready_at(chain, height);
            let end = here.first_output + block_outputs(here.block, here.transactions);
            &&& end == ringct_total(chain.take(height + 1))
            &&& height + 1 < chain.len() ==> ready_at(chain, height + 1).first_output == end
        }),
{
    lemma_total_step(chain, height);
    lemma_total_grows(chain, height);
    lemma_total_grows(chain, height + 1);
    law_scanner_takes_all_outputs(chain[height].txs);
}

/// Outputs of blocks in a row add up.
pub proof fn law_totals_add(a: Seq<FetchedView>, b: Seq<FetchedView>)
    ensures
        ringct_total(a + b) == ringct_total(a) + ringct_total(b),
    decreases b.len(),
{
    if b.len() == 0 {
        assert(a + b =~= a);
    } else {
        assert((a + b).drop_last() =~= a + b.drop_last());
        law_totals_add(a, b.drop_last());
    }
}

/// The first block of a range begins where the blocks before the range end, and
/// each other block where the block before it ends.
pub proof fn law_blocks_are_contiguous(blocks: Seq<FetchedView>, before: nat, i: int)
    requires
        0 <= i < blocks.len(),
        before + ringct_total(blocks) <= u64::MAX,
    ensures
        scannables(blocks, before)[0].first_output == before,
        i + 1 < blocks.len() ==> scannables(blocks, before)[i + 1].first_output == scannables(
            blocks,
            before,
        )[i].first_output + block_outputs(blocks[i].block, blocks[i].txs),
{
    assert(blocks.take(0) =~= Seq::<FetchedView>::empty());
    lemma_total_grows(blocks, 0);
    lemma_total_grows(blocks, i);
    lemma_total_step(blocks, i);
    lemma_total_grows(blocks, i + 1);
}

/// It makes no difference whether a range is made ready at once or in two parts,
/// the second with the count that the first leads to.
pub proof fn law_batches_agree(a: Seq<FetchedView>, b: Seq<FetchedView>, before: nat)
    ensures
        scannables(a + b, before) == scannables(a, before) + scannables(
            b,
            before + ringct_total(a),
        ),
{
    let whole = scannables(a + b, before);
    let parts = scannables(a, before) + scannables(b, before + ringct_total(a));
    assert forall|i: int| 0 <= i < whole.len() implies whole[i] == parts[i] by {
        if i < a.len() {
            assert((a + b).take(i) =~= a.take(i));
        } else {
            let j = i - a.len();
            assert((a + b).take(i) =~= a + b.take(j));
            law_totals_add(a, b.take(j));
        }
    }
    assert(whole =~= parts);
}

/// With the count of the outputs in all blocks before a range, each block of the
/// range begins at the count of the outputs in all blocks before it: the range is
/// made ready as the chain is.
pub proof fn law_counts_are_cumulative(chain: Seq<FetchedView>, start: int, end: int, i: int)
    requires
        0 <= start <= end <= chain.len(),
        0 <= i < end - start,
        ringct_total(chain) <= u64::MAX,
    ensures
        scannables(chain.subrange(start, end), ringct_total(chain.take(start)))[i].first_output
            == ringct_total(chain.take(start + i)),
        scannables(chain.subrange(start, end), ringct_total(chain.take(start)))[i] == ready_at(
            chain,
            start + i,
        ),
{
    let range = chain.subrange(start, end);
    assert(chain.take(start) + range.take(i) =~= chain.take(start + i));
    law_totals_add(chain.take(start), range.take(i));
    lemma_total_grows(chain, start + i);
}

/// The count that is kept behind a range is the count of the outputs in all blocks
/// up to its last.
pub proof fn law_kept_count_is_cumulative(chain: Seq<FetchedView>, start: int, end: int)
    requires
        0 <= start <= end <= chain.len(),
    ensures
        ringct_total(chain.take(start)) + ringct_total(chain.subrange(start, end)) == ringct_total(
            chain.take(end),
        ),
{
    assert(chain.take(start) + chain.subrange(start, end) =~= chain.take(end));
    law_totals_add(chain.take(start), chain.subrange(start, end));
}

/// The count that is kept behind a range is the one that the next range needs, so
/// that a scan in batches asks for the distribution once.
pub proof fn law_next_range_needs_no_asking(end: usize, count: u64)
    requires
        end < usize::MAX,
    ensures
        known_count(Some((end, count)), height_before((end + 1) as usize)) == Some(count),
{
}

/// A block keeps all its transactions exactly when none of them is of version one.
pub proof fn law_only_version_one_is_left_out(txs: Seq<PrunedTxView>)
    ensures
        scannable_txs(txs).len() <= txs.len(),
        (forall|i: int| 0 <= i < txs.len() ==> (#[trigger] txs[i]).version != 1) <==> scannable_txs(
            txs,
        ) == txs,
        forall|i: int|
            0 <= i < scannable_txs(txs).len() ==> (#[trigger] scannable_txs(txs)[i]).version != 1
                && txs.contains(scannable_txs(txs)[i]),
{
    let takes = |t: PrunedTxView| t.version != 1;
    txs.lemma_filter_len(takes);
    lemma_filter_keeps(txs, takes);
    assert forall|i: int| 0 <= i < scannable_txs(txs).len() implies (
    #[trigger] scannable_txs(txs)[i]).version != 1 && txs.contains(scannable_txs(txs)[i]) by {
        assert(takes(scannable_txs(txs)[i]));
    }
    if scannable_txs(txs) == txs {
        assert forall|i: int| 0 <= i < txs.len() implies (#[trigger] txs[i]).version != 1 by {
            assert(scannable_txs(txs)[i].version != 1);
        }
    }
}

/// A filter leaves elements of the list that it takes, and all of them where it takes all.
proof fn lemma_filter_keeps(txs: Seq<PrunedTxView>, takes: spec_fn(PrunedTxView) -> bool)
    ensures
        forall|i: int|
            0 <= i < txs.filter(takes).len() ==> takes(#[trigger] txs.filter(takes)[i])
                && txs.contains(txs.filter(takes)[i]),
        (forall|i: int| 0 <= i < txs.len() ==> takes(#[trigger] txs[i])) ==> txs.filter(takes)
            == txs,
    decreases txs.len(),
{
    reveal(Seq::filter);
    if txs.len() > 0 {
        let head = txs.drop_last();
        lemma_filter_keeps(head, takes);
        assert forall|i: int| 0 <= i < txs.filter(takes).len() implies takes(
            #[trigger] txs.filter(takes)[i],
        ) && txs.contains(txs.filter(takes)[i]) by {
            if i < head.filter(takes).len() {
                assert(txs.filter(takes)[i] == head.filter(takes)[i]);
                let k = choose|k: int| 0 <= k < head.len() && head[k] == head.filter(takes)[i];
                assert(txs[k] == head[k]);
            } else {
                assert(txs.filter(takes)[i] == txs[txs.len() - 1]);
            }
        }
        if forall|i: int| 0 <= i < txs.len() ==> takes(#[trigger] txs[i]) {
            assert forall|i: int| 0 <= i < head.len() implies takes(#[trigger] head[i]) by {
                assert(takes(txs[i]));
            }
            assert(takes(txs[txs.len() - 1]));
            assert(txs.filter(takes) =~= txs);
        }
    } else {
        assert(txs.filter(takes) =~= txs);
    }
}

} // verus!
