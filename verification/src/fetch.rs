//! Fetching a range of blocks with their transactions, one request at a time.
use vstd::prelude::*;

use crate::chain::{BlockInfo, BlockView, PrunedTx, PrunedTxView};
use crate::json::{Json, JsonView};
use crate::list;
use crate::rpc::{self, DaemonRpc, Fault, Request, RequestView, RpcError};

verus! {

/// A block with its transactions.
pub struct FetchedBlock {
    pub block: BlockInfo,
    pub txs: Vec<PrunedTx>,
}

/// What such a block says.
pub struct FetchedView {
    pub block: BlockView,
    pub txs: Seq<PrunedTxView>,
}

impl View for FetchedBlock {
    type V = FetchedView;

    open spec fn view(&self) -> FetchedView {
        FetchedView { block: self.block@, txs: list::views(self.txs@) }
    }
}

/// Fetching the blocks of a range. The daemon serves whole ranges in a binary
/// format only, so each height takes a request for the block, whose blob names
/// its transactions, and one for the transactions, if the block names any.
pub struct RangeFetch {
    /// The height that is being fetched; `None` once the range is done.
    next: Option<usize>,
    /// The last height of the range.
    end: usize,
    /// The block at that height, once it has come and while its transactions are awaited.
    pending: Option<BlockInfo>,
    fetched: Vec<FetchedBlock>,
}

/// How far a fetch has come.
pub struct FetchView {
    pub next: Option<usize>,
    pub end: usize,
    pub pending: Option<BlockView>,
    pub fetched: Seq<FetchedView>,
}

impl View for RangeFetch {
    type V = FetchView;

    closed spec fn view(&self) -> FetchView {
        FetchView {
            next: self.next,
            end: self.end,
            pending: match self.pending {
                Some(b) => Some(b@),
                None => None,
            },
            fetched: list::views(self.fetched@),
        }
    }
}

/// The height behind one of a range that ends at `end`.
pub open spec fn height_behind(height: usize, end: usize) -> Option<usize> {
    if height < end {
        Some((height + 1) as usize)
    } else {
        None
    }
}

/// The fetch of a range before its first request.
pub open spec fn fetch_started(start: usize, end: usize) -> FetchView {
    FetchView {
        next: if start <= end {
            Some(start)
        } else {
            None
        },
        end,
        pending: None,
        fetched: Seq::empty(),
    }
}

impl FetchView {
    /// The block awaited next has its transactions.
    pub open spec fn with_block(self, block: BlockView, txs: Seq<PrunedTxView>) -> FetchView {
        FetchView {
            next: match self.next {
                Some(h) => height_behind(h, self.end),
                None => None,
            },
            end: self.end,
            pending: None,
            fetched: self.fetched.push(FetchedView { block, txs }),
        }
    }

    /// What is asked next.
    pub open spec fn asked(self, url: Seq<char>) -> Option<RequestView> {
        match self.next {
            None => None,
            Some(height) => match self.pending {
                None => Some(block_call(url, height)),
                Some(block) => Some(rpc::txs_call(url, block.transactions, true)),
            },
        }
    }

    /// What a reply to that makes of the fetch.
    pub open spec fn told(self, reply: JsonView) -> Result<FetchView, Fault> {
        match self.next {
            None => Ok(self),
            Some(_) => match self.pending {
                None => match rpc::block_in(reply) {
                    Err(f) => Err(f),
                    Ok(block) => if block.transactions.len() == 0 {
                        Ok(self.with_block(block, Seq::empty()))
                    } else {
                        Ok(FetchView { pending: Some(block), ..self })
                    },
                },
                Some(block) => match rpc::pruned_txs_in(block.transactions, Some(reply)) {
                    Err(f) => Err(f),
                    Ok(txs) => Ok(self.with_block(block, txs)),
                },
            },
        }
    }

    /// Heights stay within the range, and only a block that names transactions waits for them.
    pub open spec fn well_formed(self) -> bool {
        &&& self.next matches Some(h) ==> h <= self.end
        &&& self.pending matches Some(b) ==> self.next is Some && b.transactions.len() > 0
    }
}

/// The request for the block at a height.
pub open spec fn block_call(url: Seq<char>, height: usize) -> RequestView {
    rpc::rpc_call(
        url,
        "get_block"@,
        JsonView::Object(seq![("height"@, JsonView::Number(height as u64))]),
    )
}

impl RangeFetch {
    #[verifier::type_invariant]
    closed spec fn stays_in_range(self) -> bool {
        self@.well_formed()
    }

    /// Starts to fetch the blocks from one height to another, both included.
    pub fn new(start: usize, end: usize) -> (r: RangeFetch)
        ensures
            r@ == fetch_started(start, end),
    {
        let fetched: Vec<FetchedBlock> = Vec::new();
        assert(list::views(fetched@) =~= Seq::<FetchedView>::empty());
        RangeFetch {
            next: if start <= end {
                Some(start)
            } else {
                None
            },
            end,
            pending: None,
            fetched,
        }
    }

    /// What is to be asked next; nothing once the range is done.
    pub fn request(&self, daemon: &DaemonRpc) -> (r: Option<Request>)
        ensures
            match r {
                Some(q) => self@.asked(daemon.url@) == Some(q@),
                None => self@.asked(daemon.url@) is None && self@.next is None,
            },
            self@.well_formed(),
    {
        proof {
            use_type_invariant(self);
        }
        match self.next {
            None => None,
            Some(height) => match &self.pending {
                None => Some(daemon.block_by_number_request(height)),
                Some(block) => {
                    assert(self@.pending == Some(block@));
                    daemon.txs_request(block.transactions().as_slice(), true)
                },
            },
        }
    }

    /// Whether the transactions of a block are awaited.
    pub fn awaits_transactions(&self) -> (r: bool)
        ensures
            r == (self@.pending is Some),
    {
        self.pending.is_some()
    }

    /// Takes the reply to what was asked.
    pub fn reply(self, reply: &Json) -> (r: Result<RangeFetch, RpcError>)
        ensures
            rpc::says(r, self@.told(reply@)),
    {
        proof {
            use_type_invariant(&self);
        }
        let ghost before = self@;
        let RangeFetch { next, end, pending, fetched } = self;
        let height: usize = match next {
            None => {
                return Ok(RangeFetch { next, end, pending, fetched });
            },
            Some(h) => h,
        };
        let (block, txs): (BlockInfo, Vec<PrunedTx>) = match pending {
            None => match DaemonRpc::block_(reply) {
                Err(e) => {
                    return Err(e);
                },
                Ok(block) => {
                    if block.transactions().len() > 0 {
                        assert(block@.transactions.len() > 0);
                        return Ok(RangeFetch { next, end, pending: Some(block), fetched });
                    }
                    assert(block@.transactions.len() == 0);
                    let none: Vec<PrunedTx> = Vec::new();
                    assert(list::views(none@) =~= Seq::<PrunedTxView>::empty());
                    (block, none)
                },
            },
            Some(block) => match DaemonRpc::pruned_txs_(
                block.transactions().as_slice(),
                Some(reply),
            ) {
                Err(e) => {
                    return Err(e);
                },
                Ok(txs) => (block, txs),
            },
        };
        let ghost stated = before.with_block(block@, list::views(txs@));
        let one: FetchedBlock = FetchedBlock { block, txs };
        let mut fetched: Vec<FetchedBlock> = fetched;
        fetched.push(one);
        assert(list::views(fetched@) =~= stated.fetched);
        Ok(
            RangeFetch {
                next: if height < end {
                    Some(height + 1)
                } else {
                    None
                },
                end,
                pending: None,
                fetched,
            },
        )
    }

    /// The blocks that have been fetched, once the range is done.
    pub fn finish(self) -> (r: Option<Vec<FetchedBlock>>)
        ensures
            match r {
                Some(v) => self@.next is None && list::views(v@) == self@.fetched,
                None => self@.next is Some,
            },
    {
        match self.next {
            None => Some(self.fetched),
            Some(_) => None,
        }
    }
}

// ---------------------------------------------------------------------------
// The blocks of a range
// ---------------------------------------------------------------------------

/// The block of each fetched one.
pub open spec fn blocks_alone(fetched: Seq<FetchedView>) -> Seq<BlockView> {
    fetched.map_values(|f: FetchedView| f.block)
}

/// The blocks of a range without their transactions.
pub fn contiguous_blocks(fetched: Vec<FetchedBlock>) -> (r: Vec<BlockInfo>)
    ensures
        list::views(r@) == blocks_alone(list::views(fetched@)),
{
    let mut out: Vec<BlockInfo> = Vec::new();
    for f in it: fetched
        invariant
            it.seq() == fetched@,
            out.len() == it.index(),
            forall|i: int| 0 <= i < out.len() ==> (#[trigger] out@[i])@ == fetched@[i]@.block,
    {
        out.push(f.block);
    }
    assert(list::views(out@) =~= blocks_alone(list::views(fetched@)));
    out
}

/// The heights of a range in order.
pub open spec fn heights(start: usize, end: usize) -> Seq<usize> {
    Seq::new(
        if start <= end {
            (end - start + 1) as nat
        } else {
            0
        },
        |i: int| (start + i) as usize,
    )
}

/// The block at a height with its transactions, as a daemon tells them that
/// answers a request for the block at a height by `blocks` and one for
/// transactions by `txs`.
pub open spec fn fetched_at(
    blocks: spec_fn(usize) -> JsonView,
    txs: spec_fn(Seq<Seq<u8>>) -> JsonView,
) -> spec_fn(usize) -> Result<FetchedView, Fault> {
    |height: usize|
        match rpc::block_in(blocks(height)) {
            Err(f) => Err(f),
            Ok(block) => if block.transactions.len() == 0 {
                Ok(FetchedView { block, txs: Seq::empty() })
            } else {
                match rpc::pruned_txs_in(block.transactions, Some(txs(block.transactions))) {
                    Err(f) => Err(f),
                    Ok(txs) => Ok(FetchedView { block, txs }),
                }
            },
        }
}

/// The blocks of a range as such a daemon tells them.
pub open spec fn range_fetched(
    start: usize,
    end: usize,
    blocks: spec_fn(usize) -> JsonView,
    txs: spec_fn(Seq<Seq<u8>>) -> JsonView,
) -> Result<Seq<FetchedView>, Fault> {
    list::each(heights(start, end), fetched_at(blocks, txs))
}

impl FetchView {
    /// This fetch is on its way through a range, and what it holds is what such a daemon told.
    pub open spec fn on_course(
        self,
        start: usize,
        blocks: spec_fn(usize) -> JsonView,
        txs: spec_fn(Seq<Seq<u8>>) -> JsonView,
    ) -> bool {
        let all = heights(start, self.end);
        let done = self.fetched.len() as int;
        &&& done <= all.len()
        &&& list::each(all.take(done), fetched_at(blocks, txs)) == Ok::<
            Seq<FetchedView>,
            Fault,
        >(self.fetched)
        &&& self.next == if done < all.len() {
            Some(all[done])
        } else {
            None
        }
        &&& self.pending matches Some(b) ==> {
            &&& done < all.len()
            &&& rpc::block_in(blocks(all[done])) == Ok::<BlockView, Fault>(b)
            &&& b.transactions.len() > 0
        }
    }

    /// What such a daemon replies to what this fetch asks.
    pub open spec fn answer(
        self,
        blocks: spec_fn(usize) -> JsonView,
        txs: spec_fn(Seq<Seq<u8>>) -> JsonView,
    ) -> JsonView {
        match self.pending {
            None => blocks(self.next->0),
            Some(b) => txs(b.transactions),
        }
    }

    /// How many replies are still awaited at most.
    pub open spec fn replies_left(self) -> nat {
        match self.next {
            None => 0,
            Some(h) => (2 * (self.end - h + 1) - if self.pending is Some {
                1int
            } else {
                0int
            }) as nat,
        }
    }
}

/// A fetch that has just started is on its way.
pub proof fn law_fetch_starts(
    start: usize,
    end: usize,
    blocks: spec_fn(usize) -> JsonView,
    txs: spec_fn(Seq<Seq<u8>>) -> JsonView,
)
    ensures
        fetch_started(start, end).on_course(start, blocks, txs),
{
    assert(heights(start, end).take(0) =~= Seq::<usize>::empty());
}

/// Each reply takes a fetch further on its way and nearer to its end; where a
/// reply is refused, the range itself cannot be had, for the same reason.
pub proof fn law_fetch_goes_on(
    fetch: FetchView,
    start: usize,
    blocks: spec_fn(usize) -> JsonView,
    txs: spec_fn(Seq<Seq<u8>>) -> JsonView,
)
    requires
        fetch.on_course(start, blocks, txs),
        fetch.next is Some,
    ensures
        match fetch.told(fetch.answer(blocks, txs)) {
            Ok(next) => next.on_course(start, blocks, txs) && next.end == fetch.end
                && next.replies_left() < fetch.replies_left(),
            Err(f) => range_fetched(start, fetch.end, blocks, txs) == Err::<
                Seq<FetchedView>,
                Fault,
            >(f),
        },
{
    let all = heights(start, fetch.end);
    let done = fetch.fetched.len() as int;
    let f = fetched_at(blocks, txs);
    assert(fetch.next == Some(all[done]));
    list::lemma_each_step(all, f, done);
    if fetch.told(fetch.answer(blocks, txs)) is Err {
        list::lemma_each_stops(all, f, done + 1);
    }
}

/// A fetch that is done holds exactly the blocks of its range, one for each
/// height, in order.
pub proof fn law_fetch_ends(
    fetch: FetchView,
    start: usize,
    blocks: spec_fn(usize) -> JsonView,
    txs: spec_fn(Seq<Seq<u8>>) -> JsonView,
)
    requires
        fetch.on_course(start, blocks, txs),
        fetch.next is None,
    ensures
        range_fetched(start, fetch.end, blocks, txs) == Ok::<Seq<FetchedView>, Fault>(
            fetch.fetched,
        ),
        fetch.fetched.len() == heights(start, fetch.end).len(),
{
    let all = heights(start, fetch.end);
    assert(all.take(all.len() as int) =~= all);
}

} // verus!
