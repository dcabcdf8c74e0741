//! Scanning the chain, batch by batch, up to its latest block.
use vstd::prelude::*;

use crate::chain::{self, FoundView, KeysView, ViewKeys};
use crate::fetch::{self, FetchedView};
use crate::list;
use crate::scannable::{self, ScannableBlock, ScannableView};
use crate::wallet::{self, copy_outputs, scan_into, OwnedOutput, OwnedView, WalletState};

verus! {

/// A batch ends so many blocks behind its first one.
pub const BATCH: usize = 50;

/// Scanning up to a block that is the latest when the scan starts.
pub struct SyncRun {
    /// The first height of the next batch; `None` once everything is scanned.
    next: Option<usize>,
    latest: usize,
    /// The wallet's outputs, with those found so far.
    outputs: Vec<OwnedOutput>,
}

/// How far a scan has come.
#[verifier::ext_equal]
pub struct SyncView {
    pub next: Option<usize>,
    pub latest: usize,
    pub outputs: Seq<OwnedView>,
}

impl View for SyncRun {
    type V = SyncView;

    closed spec fn view(&self) -> SyncView {
        SyncView { next: self.next, latest: self.latest, outputs: list::views(self.outputs@) }
    }
}

/// Why a batch is not scanned.
#[derive(Debug)]
pub enum ScanError {
    /// A block cannot be scanned, as the scanner says.
    Scanner(String),
    /// There are not as many blocks as the batch has heights.
    BlockCount,
}

/// What such an error says.
pub enum ScanFault {
    Scanner(Seq<char>),
    BlockCount,
}

impl View for ScanError {
    type V = ScanFault;

    open spec fn view(&self) -> ScanFault {
        match *self {
            ScanError::Scanner(m) => ScanFault::Scanner(m@),
            ScanError::BlockCount => ScanFault::BlockCount,
        }
    }
}

/// The height that a scan begins at: the one behind that to which the wallet was
/// scanned, and the given one where it has not been scanned.
pub open spec fn scan_begin(scanned_to: usize, from: usize) -> int {
    if scanned_to == 0 {
        from as int
    } else {
        scanned_to + 1
    }
}

/// Whether there are new blocks: ones behind the height to which the wallet was
/// scanned, or behind the given one where it has not been scanned.
pub open spec fn has_new_blocks(scanned_to: usize, from: usize, latest: usize) -> bool {
    if scanned_to == 0 {
        latest > from
    } else {
        latest > scanned_to
    }
}

/// The scan of a wallet up to the latest block, before its first batch, where
/// there are new blocks.
pub open spec fn sync_started(
    outputs: Seq<OwnedView>,
    scanned_to: usize,
    from: usize,
    latest: usize,
) -> Option<SyncView> {
    if has_new_blocks(scanned_to, from, latest) {
        Some(
            SyncView { next: Some(scan_begin(scanned_to, from) as usize), latest, outputs },
        )
    } else {
        None
    }
}

/// The last height of the batch that begins at a height.
pub open spec fn batch_end(start: usize, latest: usize) -> usize {
    if start + BATCH < latest {
        (start + BATCH) as usize
    } else {
        latest
    }
}

impl SyncView {
    /// Batches begin within the range.
    pub open spec fn well_formed(self) -> bool {
        self.next matches Some(h) ==> h <= self.latest
    }

    /// What the blocks of the next batch make of the scan, one for each height.
    pub open spec fn scanned(self, keys: KeysView, blocks: Seq<ScannableView>) -> Result<
        SyncView,
        ScanFault,
    > {
        match self.next {
            None => Ok(self),
            Some(start) => {
                let end = batch_end(start, self.latest);
                if blocks.len() != end - start + 1 {
                    Err(ScanFault::BlockCount)
                } else {
                    match wallet::blocks_owned(keys, blocks) {
                        Err(e) => Err(ScanFault::Scanner(e)),
                        Ok(found) => Ok(
                            SyncView {
                                next: fetch::height_behind(end, self.latest),
                                latest: self.latest,
                                outputs: self.outputs + found,
                            },
                        ),
                    }
                }
            },
        }
    }
}

impl SyncRun {
    #[verifier::type_invariant]
    closed spec fn stays_in_range(self) -> bool {
        self@.well_formed()
    }

    /// Starts a scan of the new blocks up to the latest one, if there are any.
    pub fn start(state: &WalletState, from: usize, latest: usize) -> (r: Option<SyncRun>)
        ensures
            ({
                let started = sync_started(
                    list::views(state.outputs@),
                    state.scanned_to,
                    from,
                    latest,
                );
                match r {
                    Some(run) => started == Some(run@),
                    None => started is None,
                }
            }),
    {
        let begin: usize = if state.scanned_to == 0 {
            if latest <= from {
                return None;
            }
            from
        } else {
            if latest <= state.scanned_to {
                return None;
            }
            state.scanned_to + 1
        };
        Some(SyncRun { next: Some(begin), latest, outputs: copy_outputs(&state.outputs) })
    }

    /// The first and the last height of the next batch.
    pub fn batch(&self) -> (r: Option<(usize, usize)>)
        ensures
            r == match self@.next {
                Some(start) => Some((start, batch_end(start, self@.latest))),
                None => None,
            },
            self@.well_formed(),
    {
        proof {
            use_type_invariant(self);
        }
        match self.next {
            None => None,
            Some(start) => {
                let end: usize = if self.latest - start > BATCH {
                    start + BATCH
                } else {
                    self.latest
                };
                Some((start, end))
            },
        }
    }

    /// The wallet's outputs, with those found so far.
    pub fn outputs(&self) -> (r: &Vec<OwnedOutput>)
        ensures
            list::views(r@) == self@.outputs,
    {
        &self.outputs
    }

    /// Scans the blocks of the next batch, one for each height.
    pub fn scan(self, keys: &ViewKeys, blocks: &Vec<ScannableBlock>) -> (r: Result<
        SyncRun,
        ScanError,
    >)
        ensures
            match r {
                Ok(run) => self@.scanned(keys@, list::views(blocks@)) == Ok::<SyncView, ScanFault>(
                    run@,
                ),
                Err(e) => self@.scanned(keys@, list::views(blocks@)) == Err::<SyncView, ScanFault>(
                    e@,
                ),
            },
    {
        let (start, end): (usize, usize) = match self.batch() {
            None => {
                return Ok(self);
            },
            Some(batch) => batch,
        };
        if blocks.len() == 0 || blocks.len() - 1 != end - start {
            return Err(ScanError::BlockCount);
        }
        let ghost all = list::views(blocks@);
        let ghost first = self@.outputs;
        let latest: usize = self.latest;
        let mut outputs: Vec<OwnedOutput> = self.outputs;
        let mut i: usize = 0;
        proof {
            assert(all.take(0) =~= Seq::<ScannableView>::empty());
            assert(first + Seq::<OwnedView>::empty() =~= first);
        }
        while i < blocks.len()
            invariant
                i <= blocks.len(),
                all == list::views(blocks@),
                blocks.len() == end - start + 1,
                self@.next == Some(start),
                self@.latest == latest,
                self@.outputs == first,
                end == batch_end(start, latest),
                wallet::blocks_owned(keys@, all.take(i as int)) is Ok,
                list::views(outputs@) == first + wallet::blocks_owned(
                    keys@,
                    all.take(i as int),
                )->Ok_0,
            decreases blocks.len() - i,
        {
            proof {
                assert(all.take(i + 1).drop_last() =~= all.take(i as int));
                assert(all.take(i + 1).last() == blocks[i as int]@);
            }
            let ghost before = wallet::blocks_owned(keys@, all.take(i as int))->Ok_0;
            match scan_into(keys, &blocks[i], &mut outputs) {
                Err(e) => {
                    proof {
                        lemma_unscannable_prefix(keys@, all, i + 1);
                    }
                    return Err(ScanError::Scanner(e));
                },
                Ok(_) => {
                    proof {
                        let here = wallet::block_owned(keys@, all[i as int])->Ok_0;
                        assert((first + before) + here =~= first + (before + here));
                    }
                },
            }
            i += 1;
        }
        assert(all.take(blocks.len() as int) =~= all);
        Ok(
            SyncRun {
                next: if end < latest {
                    Some(end + 1)
                } else {
                    None
                },
                latest,
                outputs,
            },
        )
    }

    /// The wallet behind a scan, once everything is scanned.
    pub fn finish(self) -> (r: Option<WalletState>)
        ensures
            match r {
                Some(state) => self@.next is None && list::views(state.outputs@) == self@.outputs
                    && state.scanned_to == self@.latest,
                None => self@.next is Some,
            },
    {
        match self.next {
            Some(_) => None,
            None => Some(WalletState { outputs: self.outputs, scanned_to: self.latest }),
        }
    }
}

/// Where blocks cannot be scanned, no more blocks make them scannable.
proof fn lemma_unscannable_prefix(keys: KeysView, blocks: Seq<ScannableView>, i: int)
    requires
        0 <= i <= blocks.len(),
        wallet::blocks_owned(keys, blocks.take(i)) is Err,
    ensures
        wallet::blocks_owned(keys, blocks) == wallet::blocks_owned(keys, blocks.take(i)),
    decreases blocks.len() - i,
{
    if i == blocks.len() {
        assert(blocks.take(i) =~= blocks);
    } else {
        assert(blocks.take(i + 1).drop_last() =~= blocks.take(i));
        lemma_unscannable_prefix(keys, blocks, i + 1);
    }
}

// ---------------------------------------------------------------------------
// Laws
// ---------------------------------------------------------------------------

/// The batches of a scan from a height on.
pub open spec fn batches(start: usize, latest: usize) -> Seq<(usize, usize)>
    decreases latest - start,
{
    if start > latest {
        Seq::empty()
    } else {
        let end = batch_end(start, latest);
        match fetch::height_behind(end, latest) {
            None => seq![(start, end)],
            Some(next) => if next > start {
                seq![(start, end)] + batches(next, latest)
            } else {
                seq![(start, end)]
            },
        }
    }
}

/// The heights of some batches, one batch behind the other.
pub open spec fn covered(list: Seq<(usize, usize)>) -> Seq<usize>
    decreases list.len(),
{
    if list.len() == 0 {
        Seq::empty()
    } else {
        fetch::heights(list[0].0, list[0].1) + covered(list.skip(1))
    }
}

/// The batches of a scan cover every height from its beginning to the latest
/// block, in order, each once.
pub proof fn law_batches_cover_the_range(start: usize, latest: usize)
    requires
        start <= latest,
    ensures
        covered(batches(start, latest)) == fetch::heights(start, latest),
    decreases latest - start,
{
    reveal_with_fuel(covered, 2);
    let end = batch_end(start, latest);
    let all = batches(start, latest);
    match fetch::height_behind(end, latest) {
        None => {
            assert(all.skip(1) =~= Seq::<(usize, usize)>::empty());
            assert(covered(all) =~= fetch::heights(start, latest));
        },
        Some(next) => {
            law_batches_cover_the_range(next, latest);
            assert(all.skip(1) =~= batches(next, latest));
            assert(covered(all) =~= fetch::heights(start, latest));
        },
    }
}

/// No batch is empty, and none has more than one block more than `BATCH`.
pub proof fn law_batches_are_small(start: usize, latest: usize)
    requires
        start <= latest,
    ensures
        start <= batch_end(start, latest) <= latest,
        fetch::heights(start, batch_end(start, latest)).len() <= BATCH + 1,
{
}

/// Blocks in a row are scanned as if one after the other.
pub proof fn law_scans_add(keys: KeysView, a: Seq<ScannableView>, b: Seq<ScannableView>)
    ensures
        wallet::blocks_owned(keys, a + b) == match wallet::blocks_owned(keys, a) {
            Err(e) => Err(e),
            Ok(x) => match wallet::blocks_owned(keys, b) {
                Err(e) => Err::<Seq<OwnedView>, Seq<char>>(e),
                Ok(y) => Ok(x + y),
            },
        },
    decreases b.len(),
{
    if b.len() == 0 {
        assert(a + b =~= a);
        match wallet::blocks_owned(keys, a) {
            Ok(x) => {
                assert(x + Seq::<OwnedView>::empty() =~= x);
            },
            Err(_) => {},
        }
    } else {
        assert((a + b).drop_last() =~= a + b.drop_last());
        law_scans_add(keys, a, b.drop_last());
        match (
            wallet::blocks_owned(keys, a),
            wallet::blocks_owned(keys, b.drop_last()),
            wallet::block_owned(keys, b.last()),
        ) {
            (Ok(x), Ok(y), Ok(z)) => {
                assert((x + y) + z =~= x + (y + z));
            },
            _ => {},
        }
    }
}

/// The blocks of a range, made ready as a chain has them.
pub open spec fn ready(
    chain: spec_fn(usize) -> ScannableView,
    start: usize,
    end: usize,
) -> Seq<ScannableView> {
    fetch::heights(start, end).map_values(chain)
}

/// A scan with all its remaining batches.
pub open spec fn run_to_end(
    run: SyncView,
    keys: KeysView,
    chain: spec_fn(usize) -> ScannableView,
) -> Result<SyncView, ScanFault>
    decreases
            match run.next {
                Some(h) => run.latest - h + 1,
                None => 0,
            },
{
    match run.next {
        None => Ok(run),
        Some(h) => if h > run.latest {
            Ok(run)
        } else {
            match run.scanned(keys, ready(chain, h, batch_end(h, run.latest))) {
                Err(e) => Err(e),
                Ok(next) => run_to_end(next, keys, chain),
            }
        },
    }
}

/// A scan finds exactly what the blocks from its beginning to the latest hold,
/// each scanned once, in order, and then it is done; it fails exactly where one
/// of those blocks cannot be scanned.
pub proof fn law_scan_finds_the_range(
    run: SyncView,
    keys: KeysView,
    chain: spec_fn(usize) -> ScannableView,
)
    requires
        run.next matches Some(h) && h <= run.latest,
    ensures
        run_to_end(run, keys, chain) == match wallet::blocks_owned(
            keys,
            ready(chain, run.next->0, run.latest),
        ) {
            Err(e) => Err::<SyncView, ScanFault>(ScanFault::Scanner(e)),
            Ok(found) => Ok(
                SyncView { next: None, latest: run.latest, outputs: run.outputs + found },
            ),
        },
    decreases run.latest - run.next->0,
{
    reveal_with_fuel(run_to_end, 2);
    let h = run.next->0;
    let end = batch_end(h, run.latest);
    let here = ready(chain, h, end);
    match fetch::height_behind(end, run.latest) {
        None => {},
        Some(next) => {
            let rest = ready(chain, next, run.latest);
            assert(here + rest =~= ready(chain, h, run.latest));
            law_scans_add(keys, here, rest);
            match run.scanned(keys, here) {
                Err(_) => {},
                Ok(then) => {
                    law_scan_finds_the_range(then, keys, chain);
                    match (
                        wallet::blocks_owned(keys, here),
                        wallet::blocks_owned(keys, rest),
                    ) {
                        (Ok(x), Ok(y)) => {
                            assert((run.outputs + x) + y =~= run.outputs + (x + y));
                        },
                        _ => {},
                    }
                },
            }
        },
    }
}

/// A wallet is in step with a chain that it is scanned on from a height: it has
/// not been scanned and owns nothing, or it owns what the blocks from that height
/// to the one it was scanned to hold, each scanned once.
pub open spec fn in_step(
    outputs: Seq<OwnedView>,
    scanned_to: usize,
    from: usize,
    keys: KeysView,
    chain: spec_fn(usize) -> ScannableView,
) -> bool {
    ||| scanned_to == 0 && outputs.len() == 0
    ||| scanned_to > from && wallet::blocks_owned(keys, ready(chain, from, scanned_to)) == Ok::<
        Seq<OwnedView>,
        Seq<char>,
    >(outputs)
}

/// Every sync keeps a wallet in step with the chain, however many came before it.
pub proof fn law_sync_keeps_in_step(
    outputs: Seq<OwnedView>,
    scanned_to: usize,
    from: usize,
    latest: usize,
    keys: KeysView,
    chain: spec_fn(usize) -> ScannableView,
)
    requires
        in_step(outputs, scanned_to, from, keys, chain),
        sync_started(outputs, scanned_to, from, latest) is Some,
        run_to_end(sync_started(outputs, scanned_to, from, latest)->0, keys, chain) is Ok,
    ensures
        ({
            let end = run_to_end(
                sync_started(outputs, scanned_to, from, latest)->0,
                keys,
                chain,
            )->Ok_0;
            &&& end.next is None
            &&& end.latest == latest
            &&& in_step(end.outputs, latest, from, keys, chain)
        }),
{
    let run = sync_started(outputs, scanned_to, from, latest)->0;
    law_scan_finds_the_range(run, keys, chain);
    let found = wallet::blocks_owned(keys, ready(chain, run.next->0, latest))->Ok_0;
    if scanned_to == 0 {
        assert(outputs + found =~= found);
    } else {
        let before = ready(chain, from, scanned_to);
        let behind = ready(chain, (scanned_to + 1) as usize, latest);
        assert(before + behind =~= ready(chain, from, latest));
        law_scans_add(keys, before, behind);
    }
}

/// A sync to one block and then to a later one leaves a new wallet with the
/// outputs of a single sync to the later one: those of the blocks from the first
/// height on, each once.
pub proof fn law_two_syncs_are_one(
    from: usize,
    m: usize,
    n: usize,
    keys: KeysView,
    chain: spec_fn(usize) -> ScannableView,
)
    requires
        from < m < n,
        run_to_end(sync_started(Seq::empty(), 0, from, m)->0, keys, chain) is Ok,
    ensures
        ({
            let none = Seq::<OwnedView>::empty();
            let first = run_to_end(sync_started(none, 0, from, m)->0, keys, chain)->Ok_0;
            let second = run_to_end(sync_started(first.outputs, m, from, n)->0, keys, chain);
            let whole = run_to_end(sync_started(none, 0, from, n)->0, keys, chain);
            &&& second == whole
            &&& second matches Ok(end) ==> wallet::blocks_owned(keys, ready(chain, from, n))
                == Ok::<Seq<OwnedView>, Seq<char>>(end.outputs)
        }),
{
    let none = Seq::<OwnedView>::empty();
    let one = sync_started(none, 0, from, m)->0;
    law_scan_finds_the_range(one, keys, chain);
    let x = wallet::blocks_owned(keys, ready(chain, from, m))->Ok_0;
    assert(none + x =~= x);
    let two = sync_started(x, m, from, n)->0;
    law_scan_finds_the_range(two, keys, chain);
    law_scan_finds_the_range(sync_started(none, 0, from, n)->0, keys, chain);
    let before = ready(chain, from, m);
    let behind = ready(chain, (m + 1) as usize, n);
    assert(before + behind =~= ready(chain, from, n));
    law_scans_add(keys, before, behind);
    match wallet::blocks_owned(keys, ready(chain, from, n)) {
        Ok(all) => {
            assert(none + all =~= all);
        },
        Err(_) => {},
    }
}

/// The places of some outputs ascend, from one on and before another.
pub open spec fn ascending(outputs: Seq<OwnedView>, first: int, end: int) -> bool {
    &&& forall|i: int|
        0 <= i < outputs.len() ==> first <= (#[trigger] outputs[i]).index_on_chain < end
    &&& forall|i: int, j: int|
        0 <= i < j < outputs.len() ==> (#[trigger] outputs[i]).index_on_chain < (
        #[trigger] outputs[j]).index_on_chain
}

/// No two outputs have the same place on the chain.
pub open spec fn each_once(outputs: Seq<OwnedView>) -> bool {
    forall|i: int, j: int|
        0 <= i < j < outputs.len() ==> (#[trigger] outputs[i]).index_on_chain != (
        #[trigger] outputs[j]).index_on_chain
}

/// Where the places of what was found ascend, so do those of what is kept.
proof fn lemma_kept_ascend(s: ScannableView, found: Seq<FoundView>, first: int, end: int)
    requires
        forall|i: int| 0 <= i < found.len() ==> first <= (#[trigger] found[i]).index_on_chain < end,
        forall|i: int, j: int|
            0 <= i < j < found.len() ==> (#[trigger] found[i]).index_on_chain < (
            #[trigger] found[j]).index_on_chain,
    ensures
        ascending(wallet::kept(s, found), first, end),
    decreases found.len(),
{
    if found.len() > 0 {
        let less = found.drop_last();
        let last = found.last();
        assert(last == found[found.len() - 1]);
        assert forall|i: int| 0 <= i < less.len() implies first <= (
        #[trigger] less[i]).index_on_chain < last.index_on_chain by {
            assert(less[i] == found[i]);
        }
        assert forall|i: int, j: int| 0 <= i < j < less.len() implies (
        #[trigger] less[i]).index_on_chain < (#[trigger] less[j]).index_on_chain by {
            assert(less[i] == found[i] && less[j] == found[j]);
        }
        lemma_kept_ascend(s, less, first, last.index_on_chain as int);
    }
}

/// The outputs that are kept of a block lie among those that the block makes, in
/// ascending order, each once.
pub proof fn law_block_outputs_ascend(keys: KeysView, s: ScannableView)
    ensures
        wallet::block_owned(keys, s) matches Ok(here) ==> ascending(
            here,
            s.first_output as int,
            s.first_output + scannable::block_outputs(s.block, s.transactions),
        ),
{
    match chain::scan_found(
        keys.spend,
        keys.view,
        s.block.blob,
        wallet::tx_blobs(s.transactions),
        s.first_output,
    ) {
        Err(_) => {},
        Ok(found) => {
            let n = scannable::block_outputs(s.block, s.transactions);
            let list = chain::listed(found, s.first_output, n);
            let views = wallet::found_views(list);
            chain::law_places_ascend(found, s.first_output, n);
            assert forall|i: int| 0 <= i < views.len() implies (
            #[trigger] views[i]).index_on_chain == list[i].0 by {}
            lemma_kept_ascend(s, views, s.first_output as int, s.first_output + n);
        },
    }
}

/// A chain made ready, height by height.
pub open spec fn ready_chain(blocks: Seq<FetchedView>) -> spec_fn(usize) -> ScannableView {
    |h: usize| scannable::ready_at(blocks, h as int)
}

/// Places that ascend to one go on with places that ascend from it.
proof fn lemma_ascend_on(before: Seq<OwnedView>, here: Seq<OwnedView>, middle: int, end: int)
    requires
        ascending(before, 0, middle),
        ascending(here, middle, end),
        0 <= middle <= end,
    ensures
        ascending(before + here, 0, end),
{
    let all = before + here;
    assert forall|i: int| 0 <= i < all.len() implies 0 <= (#[trigger] all[i]).index_on_chain
        < end by {
        if i < before.len() {
            assert(all[i] == before[i]);
        } else {
            assert(all[i] == here[i - before.len()]);
        }
    }
    assert forall|i: int, j: int| 0 <= i < j < all.len() implies (#[trigger] all[i]).index_on_chain
        < (#[trigger] all[j]).index_on_chain by {
        if j < before.len() {
            assert(all[i] == before[i] && all[j] == before[j]);
        } else if i < before.len() {
            assert(all[i] == before[i] && all[j] == here[j - before.len()]);
        } else {
            assert(all[i] == here[i - before.len()] && all[j] == here[j - before.len()]);
        }
    }
}

/// The outputs that are kept of a range of a chain ascend.
proof fn lemma_range_ascends(blocks: Seq<FetchedView>, from: usize, to: usize, keys: KeysView)
    requires
        from <= to < blocks.len(),
        scannable::ringct_total(blocks) <= u64::MAX,
    ensures
        wallet::blocks_owned(keys, ready(ready_chain(blocks), from, to)) matches Ok(found)
            ==> ascending(found, 0, scannable::ringct_total(blocks.take(to + 1)) as int),
    decreases to - from,
{
    let all = ready(ready_chain(blocks), from, to);
    let last = scannable::ready_at(blocks, to as int);
    assert(all.last() == last);
    law_block_outputs_ascend(keys, last);
    scannable::law_chain_is_counted(blocks, to as int);
    if from == to {
        assert(all.drop_last() =~= Seq::<ScannableView>::empty());
    } else {
        let less = (to - 1) as usize;
        assert(all.drop_last() =~= ready(ready_chain(blocks), from, less));
        lemma_range_ascends(blocks, from, less, keys);
        scannable::law_chain_is_counted(blocks, less as int);
    }
    match (wallet::blocks_owned(keys, all.drop_last()), wallet::block_owned(keys, last)) {
        (Ok(before), Ok(here)) => {
            lemma_ascend_on(
                before,
                here,
                last.first_output as int,
                scannable::ringct_total(blocks.take(to + 1)) as int,
            );
        },
        _ => {},
    }
}

/// However many syncs came before, no output of a chain is in the wallet twice:
/// no two of the wallet's outputs have the same place.
pub proof fn law_no_output_counts_twice(
    outputs: Seq<OwnedView>,
    scanned_to: usize,
    from: usize,
    keys: KeysView,
    blocks: Seq<FetchedView>,
)
    requires
        in_step(outputs, scanned_to, from, keys, ready_chain(blocks)),
        scanned_to < blocks.len(),
        scannable::ringct_total(blocks) <= u64::MAX,
    ensures
        each_once(outputs),
{
    if scanned_to > from {
        lemma_range_ascends(blocks, from, scanned_to, keys);
    }
}

/// No output without an amount is kept.
pub proof fn law_kept_outputs_have_amounts(s: ScannableView, found: Seq<FoundView>)
    ensures
        wallet::kept(s, found).len() <= found.len(),
        forall|i: int|
            0 <= i < wallet::kept(s, found).len() ==> (#[trigger] wallet::kept(s, found)[i]).amount
                > 0,
    decreases found.len(),
{
    if found.len() > 0 {
        law_kept_outputs_have_amounts(s, found.drop_last());
    }
}

/// A scan never loses an output, and those that it adds come behind the others.
pub proof fn law_scan_only_adds(run: SyncView, keys: KeysView, blocks: Seq<ScannableView>)
    ensures
        run.scanned(keys, blocks) matches Ok(next) ==> next.outputs.len()
            >= run.outputs.len() && next.outputs.take(run.outputs.len() as int) == run.outputs
            && next.latest == run.latest,
{
    match run.scanned(keys, blocks) {
        Ok(next) => {
            assert(next.outputs.take(run.outputs.len() as int) =~= run.outputs);
        },
        Err(_) => {},
    }
}

/// A wallet that was scanned to a block has nothing to scan until there is a later
/// one; then the scan begins at the block behind it.
pub proof fn law_scan_resumes(
    outputs: Seq<OwnedView>,
    from: usize,
    scanned_to: usize,
    latest: usize,
)
    requires
        scanned_to > 0,
    ensures
        latest <= scanned_to <==> sync_started(outputs, scanned_to, from, latest) is None,
        latest > scanned_to ==> sync_started(outputs, scanned_to, from, latest) == Some(
            SyncView { next: Some((scanned_to + 1) as usize), latest, outputs },
        ),
{
}

} // verus!
