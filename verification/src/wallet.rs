//! The outputs that the wallet owns, and finding them on the chain.
use vstd::prelude::*;

use crate::bytes::{self, same_key};
use crate::chain::{
    self, extra_key, read_found_output, scan_block, FoundOutput, FoundView, KeysView,
    PrunedTxView, ViewKeys,
};
use crate::list;
use crate::scannable::{self, ScannableBlock, ScannableView};

verus! {

// ---------------------------------------------------------------------------
// The wallet
// ---------------------------------------------------------------------------

/// An owned output with everything that the device needs to derive its key image
/// and everything that is needed to build a spend.
pub struct OwnedOutput {
    /// The transaction public key, from the transaction's extra field.
    pub tx_pub_key: [u8; 32],
    /// The index within the transaction.
    pub index_in_tx: u64,
    /// The index among the chain's RingCT outputs.
    pub index_on_chain: u64,
    /// The one-time output key.
    pub key: [u8; 32],
    /// The amount in piconeros.
    pub amount: u64,
    /// The serialized output, for selecting decoys.
    pub wallet_output: Vec<u8>,
}

/// What an owned output says.
#[verifier::ext_equal]
pub struct OwnedView {
    pub tx_pub_key: Seq<u8>,
    pub index_in_tx: u64,
    pub index_on_chain: u64,
    pub key: Seq<u8>,
    pub amount: u64,
    pub wallet_output: Seq<u8>,
}

impl View for OwnedOutput {
    type V = OwnedView;

    open spec fn view(&self) -> OwnedView {
        OwnedView {
            tx_pub_key: self.tx_pub_key@,
            index_in_tx: self.index_in_tx,
            index_on_chain: self.index_on_chain,
            key: self.key@,
            amount: self.amount,
            wallet_output: self.wallet_output@,
        }
    }
}

impl OwnedOutput {
    /// The same output once more.
    pub fn copy(&self) -> (r: OwnedOutput)
        ensures
            r@ == self@,
    {
        OwnedOutput {
            tx_pub_key: self.tx_pub_key,
            index_in_tx: self.index_in_tx,
            index_on_chain: self.index_on_chain,
            key: self.key,
            amount: self.amount,
            wallet_output: self.wallet_output.clone(),
        }
    }
}

/// The same outputs once more.
pub fn copy_outputs(outputs: &Vec<OwnedOutput>) -> (r: Vec<OwnedOutput>)
    ensures
        list::views(r@) == list::views(outputs@),
{
    let mut out: Vec<OwnedOutput> = Vec::new();
    let mut i: usize = 0;
    while i < outputs.len()
        invariant
            i <= outputs.len(),
            out.len() == i,
            forall|j: int| 0 <= j < i ==> (#[trigger] out@[j])@ == outputs@[j]@,
        decreases outputs.len() - i,
    {
        out.push(outputs[i].copy());
        i += 1;
    }
    assert(list::views(out@) =~= list::views(outputs@));
    out
}

/// The owned outputs that scanning has found, and how far it has come.
pub struct WalletState {
    pub outputs: Vec<OwnedOutput>,
    pub scanned_to: usize,
}

/// The sum of the amounts of some outputs.
pub open spec fn amount_sum(outputs: Seq<OwnedView>) -> nat
    decreases outputs.len(),
{
    if outputs.len() == 0 {
        0
    } else {
        amount_sum(outputs.drop_last()) + outputs.last().amount as nat
    }
}

/// Prefixes of a list of outputs are worth no more than the list.
pub proof fn lemma_sum_grows(outputs: Seq<OwnedView>, i: int)
    requires
        0 <= i <= outputs.len(),
    ensures
        amount_sum(outputs.take(i)) <= amount_sum(outputs),
    decreases outputs.len() - i,
{
    if i == outputs.len() {
        assert(outputs.take(i) =~= outputs);
    } else {
        assert(outputs.take(i + 1).drop_last() =~= outputs.take(i));
        lemma_sum_grows(outputs, i + 1);
    }
}

impl WalletState {
    /// A wallet that has not been scanned.
    pub fn new() -> (r: WalletState)
        ensures
            r.outputs@.len() == 0,
            r.scanned_to == 0,
    {
        WalletState { outputs: Vec::new(), scanned_to: 0 }
    }

    /// The sum of the amounts of all outputs in piconeros; `None` where it
    /// exceeds the largest `u64`.
    pub fn balance(&self) -> (r: Option<u64>)
        ensures
            match r {
                Some(b) => b == amount_sum(list::views(self.outputs@)),
                None => amount_sum(list::views(self.outputs@)) > u64::MAX,
            },
    {
        let ghost all = list::views(self.outputs@);
        let mut sum: u64 = 0;
        let mut i: usize = 0;
        assert(all.take(0) =~= Seq::<OwnedView>::empty());
        while i < self.outputs.len()
            invariant
                i <= self.outputs.len(),
                all == list::views(self.outputs@),
                sum == amount_sum(all.take(i as int)),
            decreases self.outputs.len() - i,
        {
            proof {
                assert(all.take(i + 1).drop_last() =~= all.take(i as int));
                assert(all.take(i + 1).last() == self.outputs[i as int]@);
                lemma_sum_grows(all, i + 1);
            }
            match sum.checked_add(self.outputs[i].amount) {
                None => {
                    return None;
                },
                Some(n) => {
                    sum = n;
                },
            }
            i += 1;
        }
        assert(all.take(self.outputs.len() as int) =~= all);
        Some(sum)
    }
}

// ---------------------------------------------------------------------------
// The outputs of a block
// ---------------------------------------------------------------------------

/// A key of zeros, which stands for a transaction key that is not known.
pub open spec fn no_key() -> Seq<u8> {
    Seq::new(32, |i: int| 0u8)
}

/// The public key of a transaction with an extra field, or zeros.
pub open spec fn key_or_none(extra: Seq<u8>) -> Seq<u8> {
    match chain::tx_key(extra) {
        Some(k) => k,
        None => no_key(),
    }
}

/// The public key of the transaction with a hash, where the transactions of a
/// block and their hashes go in pairs, in order. The last pair with that hash
/// counts; where there is none, the key is another one.
pub open spec fn key_of_tx(
    hashes: Seq<Seq<u8>>,
    txs: Seq<PrunedTxView>,
    hash: Seq<u8>,
    other: Seq<u8>,
) -> Seq<u8>
    decreases hashes.len(),
{
    if hashes.len() == 0 {
        other
    } else if hashes.len() <= txs.len() && hashes.last() == hash {
        key_or_none(txs[hashes.len() - 1].extra)
    } else {
        key_of_tx(hashes.drop_last(), txs, hash, other)
    }
}

/// The public key of the transaction of a block with a hash: one of those listed,
/// or the miner's. Where there is none, it is zeros.
pub open spec fn key_in_block(s: ScannableView, hash: Seq<u8>) -> Seq<u8> {
    key_of_tx(
        s.block.transactions,
        s.transactions,
        hash,
        if hash == s.block.miner_hash {
            key_or_none(s.block.miner_extra)
        } else {
            no_key()
        },
    )
}

/// An output that was found in a block, owned.
pub open spec fn owned(s: ScannableView, found: FoundView) -> OwnedView {
    OwnedView {
        tx_pub_key: key_in_block(s, found.transaction),
        index_in_tx: found.index_in_tx,
        index_on_chain: found.index_on_chain,
        key: found.key,
        amount: found.amount,
        wallet_output: found.wallet_output,
    }
}

/// The outputs that are kept of those found in a block: all but those without an
/// amount, which cannot be spent.
pub open spec fn kept(s: ScannableView, found: Seq<FoundView>) -> Seq<OwnedView>
    decreases found.len(),
{
    if found.len() == 0 {
        Seq::empty()
    } else if found.last().amount == 0 {
        kept(s, found.drop_last())
    } else {
        kept(s, found.drop_last()).push(owned(s, found.last()))
    }
}

/// The serialized forms of some transactions.
pub open spec fn tx_blobs(txs: Seq<PrunedTxView>) -> Seq<Seq<u8>> {
    txs.map_values(|t: PrunedTxView| t.blob)
}

/// The outputs that view keys find and keep in a block, or what is said where it
/// cannot be scanned.
pub open spec fn block_owned(keys: KeysView, s: ScannableView) -> Result<
    Seq<OwnedView>,
    Seq<char>,
> {
    match chain::scan_found(
        keys.spend,
        keys.view,
        s.block.blob,
        tx_blobs(s.transactions),
        s.first_output,
    ) {
        Err(e) => Err(e),
        Ok(found) => Ok(
            kept(
                s,
                found_views(
                    chain::listed(
                        found,
                        s.first_output,
                        scannable::block_outputs(s.block, s.transactions),
                    ),
                ),
            ),
        ),
    }
}

/// The outputs that serialized forms at their places stand for.
pub open spec fn found_views(found: Seq<(u64, Seq<u8>)>) -> Seq<FoundView> {
    found.map_values(|p: (u64, Seq<u8>)| chain::found_at(p.0, p.1))
}

/// The outputs that view keys find and keep in some blocks, or what is said of the
/// first of them that cannot be scanned.
pub open spec fn blocks_owned(keys: KeysView, blocks: Seq<ScannableView>) -> Result<
    Seq<OwnedView>,
    Seq<char>,
>
    decreases blocks.len(),
{
    if blocks.len() == 0 {
        Ok(Seq::empty())
    } else {
        match blocks_owned(keys, blocks.drop_last()) {
            Err(e) => Err(e),
            Ok(before) => match block_owned(keys, blocks.last()) {
                Err(e) => Err(e),
                Ok(here) => Ok(before + here),
            },
        }
    }
}

/// Pairs behind the last transaction name none.
proof fn lemma_key_of_short(
    hashes: Seq<Seq<u8>>,
    txs: Seq<PrunedTxView>,
    hash: Seq<u8>,
    other: Seq<u8>,
    n: int,
)
    requires
        0 <= n <= hashes.len(),
        forall|i: int| n <= i < hashes.len() && i < txs.len() ==> #[trigger] hashes[i] != hash,
    ensures
        key_of_tx(hashes, txs, hash, other) == key_of_tx(hashes.take(n), txs, hash, other),
    decreases hashes.len() - n,
{
    if n == hashes.len() {
        assert(hashes.take(n) =~= hashes);
    } else {
        let front = hashes.drop_last();
        assert(hashes.last() == hashes[hashes.len() - 1]);
        assert forall|i: int| n <= i < front.len() && i < txs.len() implies #[trigger] front[i]
            != hash by {
            assert(front[i] == hashes[i]);
        }
        lemma_key_of_short(front, txs, hash, other, n);
        assert(front.take(n) =~= hashes.take(n));
    }
}

/// Finds the public key of a transaction with an extra field, or gives zeros.
fn find_key(extra: &[u8]) -> (r: [u8; 32])
    ensures
        r@ == key_or_none(extra@),
{
    match extra_key(extra) {
        Some(k) => k,
        None => {
            let none: [u8; 32] = [0u8; 32];
            assert(none@ =~= no_key());
            none
        },
    }
}

/// Finds the public key of the transaction of a block with a hash.
fn find_tx_key(block: &ScannableBlock, hash: &[u8; 32]) -> (r: [u8; 32])
    ensures
        r@ == key_in_block(block@, hash@),
{
    let ghost hashes = block@.block.transactions;
    let ghost txs = block@.transactions;
    let ghost other = if hash@ == block@.block.miner_hash {
        key_or_none(block@.block.miner_extra)
    } else {
        no_key()
    };
    let names: &Vec<[u8; 32]> = block.block.transactions();
    let n: usize = if names.len() <= block.transactions.len() {
        names.len()
    } else {
        block.transactions.len()
    };
    let mut i: usize = n;
    proof {
        lemma_key_of_short(hashes, txs, hash@, other, n as int);
    }
    while i > 0
        invariant
            i <= n,
            n <= names.len(),
            n <= block.transactions.len(),
            hashes == bytes::keys(names@),
            key_in_block(block@, hash@) == key_of_tx(hashes, txs, hash@, other),
            txs == list::views(block.transactions@),
            key_of_tx(hashes, txs, hash@, other) == key_of_tx(
                hashes.take(i as int),
                txs,
                hash@,
                other,
            ),
        decreases i,
    {
        assert(hashes.take(i as int).last() == names@[i - 1]@);
        if same_key(&names[i - 1], hash) {
            assert(txs[i - 1] == block.transactions@[i - 1]@);
            return find_key(block.transactions[i - 1].extra().as_slice());
        }
        assert(hashes.take(i as int).drop_last() =~= hashes.take(i - 1));
        i -= 1;
    }
    if same_key(&block.block.miner_hash(), hash) {
        return find_key(block.block.miner_extra().as_slice());
    }
    let none: [u8; 32] = [0u8; 32];
    assert(none@ =~= no_key());
    none
}

/// Adds to a wallet's outputs those that were found in a block.
pub fn own_outputs(block: &ScannableBlock, found: Vec<FoundOutput>, outputs: &mut Vec<OwnedOutput>)
    ensures
        list::views(final(outputs)@) == list::views(old(outputs)@) + kept(
            block@,
            list::views(found@),
        ),
{
    let ghost all = list::views(found@);
    let ghost first = list::views(outputs@);
    proof {
        assert(all.take(0) =~= Seq::<FoundView>::empty());
        assert(first + Seq::<OwnedView>::empty() =~= first);
    }
    for out in it: found
        invariant
            it.seq() == found@,
            all == list::views(found@),
            list::views(outputs@) == first + kept(block@, all.take(it.index() as int)),
    {
        proof {
            let i = it.index() as int;
            assert(all.take(i + 1).drop_last() =~= all.take(i));
            assert(all.take(i + 1).last() == out@);
        }
        if out.amount != 0 {
            let ghost before = list::views(outputs@);
            let one: OwnedOutput = OwnedOutput {
                tx_pub_key: find_tx_key(block, &out.transaction),
                index_in_tx: out.index_in_tx,
                index_on_chain: out.index_on_chain,
                key: out.key,
                amount: out.amount,
                wallet_output: out.wallet_output,
            };
            outputs.push(one);
            assert(list::views(outputs@) =~= before.push(one@));
        }
    }
    assert(all.take(found@.len() as int) =~= all);
}

/// Reads serialized outputs at their places, all of which can be read.
fn read_all(serialized: Vec<(u64, Vec<u8>)>) -> (r: Vec<FoundOutput>)
    requires
        forall|i: int|
            0 <= i < serialized.len() ==> chain::wallet_output_read(
                (#[trigger] serialized@[i]).1@,
            ) is Some,
    ensures
        list::views(r@) == found_views(chain::placed(serialized@)),
{
    let mut found: Vec<FoundOutput> = Vec::new();
    for one in it: serialized
        invariant
            it.seq() == serialized@,
            found.len() == it.index(),
            forall|i: int|
                0 <= i < serialized@.len() ==> chain::wallet_output_read(
                    (#[trigger] serialized@[i]).1@,
                ) is Some,
            forall|i: int|
                0 <= i < found.len() ==> (#[trigger] found@[i])@ == chain::found_at(
                    serialized@[i].0,
                    serialized@[i].1@,
                ),
    {
        assert(one == serialized@[it.index() as int]);
        let (place, bytes): (u64, Vec<u8>) = one;
        match read_found_output(place, bytes) {
            Some(o) => {
                found.push(o);
            },
            None => {
                assert(false);
            },
        }
    }
    assert(list::views(found@) =~= found_views(chain::placed(serialized@)));
    found
}

/// Serialized transactions make as many RingCT outputs as the transactions.
proof fn lemma_tx_places(txs: Seq<PrunedTxView>)
    requires
        forall|i: int|
            0 <= i < txs.len() ==> chain::pruned_tx_of((#[trigger] txs[i]).blob) == Ok::<
                PrunedTxView,
                Seq<char>,
            >(txs[i]),
    ensures
        chain::tx_places(tx_blobs(txs)) == scannable::ringct_outputs(txs),
    decreases txs.len(),
{
    if txs.len() > 0 {
        let less = txs.drop_last();
        assert(tx_blobs(txs).drop_last() =~= tx_blobs(less));
        assert(tx_blobs(txs).last() == txs[txs.len() - 1].blob);
        assert forall|i: int| 0 <= i < less.len() implies chain::pruned_tx_of(
            (#[trigger] less[i]).blob,
        ) == Ok::<PrunedTxView, Seq<char>>(less[i]) by {
            assert(less[i] == txs[i]);
        }
        lemma_tx_places(less);
    }
}

/// Scans a block and adds what it finds to a wallet's outputs. Where the block
/// cannot be scanned the outputs stay, and the error is what the scanner said.
pub fn scan_into(keys: &ViewKeys, block: &ScannableBlock, outputs: &mut Vec<OwnedOutput>) -> (r:
    Result<(), String>)
    ensures
        match r {
            Ok(_) => block_owned(keys@, block@) is Ok && list::views(final(outputs)@)
                == list::views(old(outputs)@) + block_owned(keys@, block@)->Ok_0,
            Err(e) => {
                &&& block_owned(keys@, block@) == Err::<Seq<OwnedView>, Seq<char>>(e@)
                &&& final(outputs)@ == old(outputs)@
            },
        },
{
    let mut blobs: Vec<Vec<u8>> = Vec::new();
    let mut i: usize = 0;
    while i < block.transactions.len()
        invariant
            i <= block.transactions.len(),
            blobs.len() == i,
            forall|j: int|
                0 <= j < i ==> (#[trigger] blobs@[j])@ == block.transactions@[j]@.blob
                    && chain::pruned_tx_of(blobs@[j]@) == Ok::<PrunedTxView, Seq<char>>(
                    block.transactions@[j]@,
                ),
        decreases block.transactions.len() - i,
    {
        blobs.push(block.transactions[i].blob().clone());
        i += 1;
    }
    assert(bytes::blobs(blobs@) =~= tx_blobs(block@.transactions));
    proof {
        let txs = block@.transactions;
        assert forall|j: int| 0 <= j < txs.len() implies chain::pruned_tx_of(
            (#[trigger] txs[j]).blob,
        ) == Ok::<PrunedTxView, Seq<char>>(txs[j]) by {
            assert(blobs@[j]@ == block.transactions@[j]@.blob);
        }
        lemma_tx_places(txs);
    }
    let spend: [u8; 32] = keys.spend_key();
    match scan_block(
        spend,
        keys.view_key(),
        block.block.blob().as_slice(),
        &blobs,
        block.first_output,
    ) {
        Err(e) => Err(e),
        Ok(serialized) => {
            own_outputs(block, read_all(serialized), outputs);
            Ok(())
        },
    }
}

/// Outputs that are added add their amounts to the balance.
pub proof fn law_balance_adds(a: Seq<OwnedView>, b: Seq<OwnedView>)
    ensures
        amount_sum(a + b) == amount_sum(a) + amount_sum(b),
    decreases b.len(),
{
    if b.len() == 0 {
        assert(a + b =~= a);
    } else {
        assert((a + b).drop_last() =~= a + b.drop_last());
        law_balance_adds(a, b.drop_last());
    }
}

} // verus!
