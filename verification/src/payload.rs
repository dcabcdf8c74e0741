//! The `xmr-output` payload: what the device is told of the outputs of a transaction.
use vstd::prelude::*;

use crate::bytes::{self, encode_hex, same_key};
use crate::list;
use crate::text::{self, push_decimal};
use crate::wallet::{OwnedOutput, OwnedView};

verus! {

/// One output in a payload: its index within the transaction, its key, and the
/// subaddress it was sent to, if any.
pub struct Entry {
    pub index: u64,
    pub key: Seq<u8>,
    pub subaddress: Option<(u32, u32)>,
}

/// The entry that a tuple stands for.
pub open spec fn entry(o: (u64, [u8; 32], Option<(u32, u32)>)) -> Entry {
    Entry { index: o.0, key: o.1@, subaddress: o.2 }
}

/// The entries that some tuples stand for.
pub open spec fn entries(outputs: Seq<(u64, [u8; 32], Option<(u32, u32)>)>) -> Seq<Entry> {
    outputs.map_values(|o: (u64, [u8; 32], Option<(u32, u32)>)| entry(o))
}

/// An entry in text: index and key, and the subaddress where there is one, with
/// colons between them.
pub open spec fn entry_text(e: Entry) -> Seq<char> {
    let plain = text::decimal(e.index as nat).push(':') + bytes::hex_text(e.key);
    match e.subaddress {
        Some(sub) => (plain.push(':') + text::decimal(sub.0 as nat)).push(':') + text::decimal(
            sub.1 as nat,
        ),
        None => plain,
    }
}

/// The payload of a transaction: its public key, and behind it each entry after a semicolon.
pub open spec fn payload_text(tx_pub_key: Seq<u8>, list: Seq<Entry>) -> Seq<char>
    decreases list.len(),
{
    if list.len() == 0 {
        "xmr-output:"@ + bytes::hex_text(tx_pub_key)
    } else {
        payload_text(tx_pub_key, list.drop_last()).push(';') + entry_text(list.last())
    }
}

/// Encodes the payload for the owned outputs of one transaction.
pub fn encode_output_payload(
    tx_pub_key: &[u8; 32],
    outputs: &[(u64, [u8; 32], Option<(u32, u32)>)],
) -> (r: String)
    ensures
        r@ == payload_text(tx_pub_key@, entries(outputs@)),
{
    let ghost all = entries(outputs@);
    let mut s: String = "xmr-output:".to_owned();
    s.append(encode_hex(tx_pub_key).as_str());
    let mut i: usize = 0;
    assert(all.take(0) =~= Seq::<Entry>::empty());
    while i < outputs.len()
        invariant
            i <= outputs@.len(),
            all == entries(outputs@),
            s@ == payload_text(tx_pub_key@, all.take(i as int)),
        decreases outputs@.len() - i,
    {
        let ghost before = s@;
        proof {
            assert(all.take(i + 1).drop_last() =~= all.take(i as int));
            assert(all.take(i + 1).last() == entry(outputs@[i as int]));
        }
        let (index, key, sub): (u64, [u8; 32], Option<(u32, u32)>) = outputs[i];
        s.push(';');
        push_decimal(&mut s, index);
        s.push(':');
        s.append(encode_hex(&key).as_str());
        match sub {
            Some((major, minor)) => {
                s.push(':');
                push_decimal(&mut s, major as u64);
                s.push(':');
                push_decimal(&mut s, minor as u64);
            },
            None => {},
        }
        assert(s@ =~= before.push(';') + entry_text(all[i as int]));
        i += 1;
    }
    assert(all.take(outputs@.len() as int) =~= all);
    s
}

// ---------------------------------------------------------------------------
// The payloads of a wallet
// ---------------------------------------------------------------------------

/// The transaction keys of some outputs, each once, in the order in which they first occur.
pub open spec fn tx_keys(outputs: Seq<OwnedView>) -> Seq<Seq<u8>>
    decreases outputs.len(),
{
    if outputs.len() == 0 {
        Seq::empty()
    } else {
        let before = tx_keys(outputs.drop_last());
        if before.contains(outputs.last().tx_pub_key) {
            before
        } else {
            before.push(outputs.last().tx_pub_key)
        }
    }
}

/// The entries of the outputs with a transaction key, in order.
pub open spec fn entries_of(outputs: Seq<OwnedView>, tx_pub_key: Seq<u8>) -> Seq<Entry>
    decreases outputs.len(),
{
    if outputs.len() == 0 {
        Seq::empty()
    } else {
        let before = entries_of(outputs.drop_last(), tx_pub_key);
        let last = outputs.last();
        if last.tx_pub_key == tx_pub_key {
            before.push(Entry { index: last.index_in_tx, key: last.key, subaddress: None })
        } else {
            before
        }
    }
}

/// The payloads of some outputs: one for each transaction key.
pub open spec fn payloads_of(outputs: Seq<OwnedView>) -> Seq<Seq<char>> {
    tx_keys(outputs).map_values(
        |k: Seq<u8>| payload_text(k, entries_of(outputs, k)),
    )
}

/// Collects the transaction keys of some outputs.
fn collect_keys(outputs: &Vec<OwnedOutput>) -> (r: Vec<[u8; 32]>)
    ensures
        bytes::keys(r@) == tx_keys(list::views(outputs@)),
{
    let ghost all = list::views(outputs@);
    let mut found: Vec<[u8; 32]> = Vec::new();
    let mut i: usize = 0;
    assert(all.take(0) =~= Seq::<OwnedView>::empty());
    assert(bytes::keys(found@) =~= Seq::<Seq<u8>>::empty());
    while i < outputs.len()
        invariant
            i <= outputs.len(),
            all == list::views(outputs@),
            bytes::keys(found@) == tx_keys(all.take(i as int)),
        decreases outputs.len() - i,
    {
        let key: [u8; 32] = outputs[i].tx_pub_key;
        let ghost before = tx_keys(all.take(i as int));
        proof {
            assert(all.take(i + 1).drop_last() =~= all.take(i as int));
            assert(all.take(i + 1).last() == outputs[i as int]@);
        }
        let mut known: bool = false;
        let mut k: usize = 0;
        while k < found.len() && !known
            invariant
                k <= found.len(),
                bytes::keys(found@) == before,
                known ==> before.contains(key@),
                !known ==> forall|j: int| 0 <= j < k ==> #[trigger] before[j] != key@,
            decreases found.len() - k,
        {
            assert(before[k as int] == found@[k as int]@);
            if same_key(&found[k], &key) {
                known = true;
                assert(before.contains(before[k as int]));
            }
            k += 1;
        }
        if !known {
            assert(!before.contains(key@));
            let ghost was = found@;
            found.push(key);
            assert(bytes::keys(found@) =~= bytes::keys(was).push(key@));
        }
        i += 1;
    }
    assert(all.take(outputs.len() as int) =~= all);
    found
}

/// Collects the entries of the outputs with a transaction key.
fn collect_entries(outputs: &Vec<OwnedOutput>, tx_pub_key: &[u8; 32]) -> (r: Vec<
    (u64, [u8; 32], Option<(u32, u32)>),
>)
    ensures
        entries(r@) == entries_of(list::views(outputs@), tx_pub_key@),
{
    let ghost all = list::views(outputs@);
    let mut found: Vec<(u64, [u8; 32], Option<(u32, u32)>)> = Vec::new();
    let mut i: usize = 0;
    assert(all.take(0) =~= Seq::<OwnedView>::empty());
    assert(entries(found@) =~= Seq::<Entry>::empty());
    while i < outputs.len()
        invariant
            i <= outputs.len(),
            all == list::views(outputs@),
            entries(found@) == entries_of(all.take(i as int), tx_pub_key@),
        decreases outputs.len() - i,
    {
        proof {
            assert(all.take(i + 1).drop_last() =~= all.take(i as int));
            assert(all.take(i + 1).last() == outputs[i as int]@);
        }
        if same_key(&outputs[i].tx_pub_key, tx_pub_key) {
            let one: (u64, [u8; 32], Option<(u32, u32)>) = (
                outputs[i].index_in_tx,
                outputs[i].key,
                None,
            );
            let ghost was = found@;
            found.push(one);
            assert(entries(found@) =~= entries(was).push(entry(one)));
        }
        i += 1;
    }
    assert(all.take(outputs.len() as int) =~= all);
    found
}

/// The text of each string of a list.
pub open spec fn strings(v: Seq<String>) -> Seq<Seq<char>> {
    v.map_values(|s: String| s@)
}

/// The payloads of the outputs of a wallet.
pub fn output_payloads(outputs: &Vec<OwnedOutput>) -> (r: Vec<String>)
    ensures
        strings(r@) == payloads_of(list::views(outputs@)),
{
    let ghost all = list::views(outputs@);
    let found: Vec<[u8; 32]> = collect_keys(outputs);
    let mut out: Vec<String> = Vec::new();
    let mut i: usize = 0;
    while i < found.len()
        invariant
            i <= found.len(),
            all == list::views(outputs@),
            bytes::keys(found@) == tx_keys(all),
            out.len() == i,
            forall|j: int|
                0 <= j < i ==> (#[trigger] out@[j])@ == payload_text(
                    tx_keys(all)[j],
                    entries_of(all, tx_keys(all)[j]),
                ),
        decreases found.len() - i,
    {
        assert(tx_keys(all)[i as int] == found@[i as int]@);
        let list: Vec<(u64, [u8; 32], Option<(u32, u32)>)> = collect_entries(outputs, &found[i]);
        out.push(encode_output_payload(&found[i], list.as_slice()));
        i += 1;
    }
    assert(strings(out@) =~= payloads_of(all));
    out
}

// ---------------------------------------------------------------------------
// Laws
// ---------------------------------------------------------------------------

/// Every output stands in the payload of its transaction key, there is one
/// payload for each key, and no payload is without entries.
pub proof fn law_payloads_tell_every_output(outputs: Seq<OwnedView>)
    ensures
        tx_keys(outputs).no_duplicates(),
        forall|i: int|
            0 <= i < outputs.len() ==> tx_keys(outputs).contains(
                (#[trigger] outputs[i]).tx_pub_key,
            ) && entries_of(outputs, outputs[i].tx_pub_key).contains(
                Entry { index: outputs[i].index_in_tx, key: outputs[i].key, subaddress: None },
            ),
        forall|k: Seq<u8>|
            #[trigger] tx_keys(outputs).contains(k) ==> entries_of(outputs, k).len() > 0,
    decreases outputs.len(),
{
    if outputs.len() > 0 {
        let less = outputs.drop_last();
        let last = outputs.last();
        law_payloads_tell_every_output(less);
        let before = tx_keys(less);
        let all = tx_keys(outputs);
        assert forall|k: Seq<u8>| #[trigger] before.contains(k) implies all.contains(k) by {
            let j = choose|j: int| 0 <= j < before.len() && before[j] == k;
            assert(all[j] == k);
        }
        assert(all.contains(last.tx_pub_key)) by {
            if !before.contains(last.tx_pub_key) {
                assert(all[all.len() - 1] == last.tx_pub_key);
            }
        }
        assert forall|i: int| 0 <= i < outputs.len() implies all.contains(
            (#[trigger] outputs[i]).tx_pub_key,
        ) && entries_of(outputs, outputs[i].tx_pub_key).contains(
            Entry { index: outputs[i].index_in_tx, key: outputs[i].key, subaddress: None },
        ) by {
            let o = outputs[i];
            let e = Entry { index: o.index_in_tx, key: o.key, subaddress: None };
            let whole = entries_of(outputs, o.tx_pub_key);
            if i < less.len() {
                assert(less[i] == o);
                assert(before.contains(o.tx_pub_key));
                let part = entries_of(less, o.tx_pub_key);
                let j = choose|j: int| 0 <= j < part.len() && part[j] == e;
                assert(whole[j] == e);
            } else {
                assert(whole[whole.len() - 1] == e);
            }
        }
        assert forall|k: Seq<u8>| #[trigger] all.contains(k) implies entries_of(outputs, k).len()
            > 0 by {
            if k != last.tx_pub_key {
                let j = choose|j: int| 0 <= j < all.len() && all[j] == k;
                if j < before.len() {
                    assert(before[j] == k);
                }
                assert(before.contains(k));
            }
        }
    }
}

/// Hexadecimal digits, decimal digits and colons are no semicolons, and digits no colons.
proof fn lemma_separators(e: Entry)
    ensures
        !entry_text(e).contains(';'),
        !bytes::hex_text(e.key).contains(':'),
{
    text::law_decimal_is_digits(e.index as nat);
    match e.subaddress {
        Some(sub) => {
            text::law_decimal_is_digits(sub.0 as nat);
            text::law_decimal_is_digits(sub.1 as nat);
        },
        None => {},
    }
    let t = entry_text(e);
    let index = text::decimal(e.index as nat);
    let key = bytes::hex_text(e.key);
    if t.contains(';') {
        let i = choose|i: int| 0 <= i < t.len() && t[i] == ';';
        let n = index.len() as int;
        let k = n + 1 + key.len();
        if i < n {
            assert(text::is_digit(index[i]));
        } else if i == n {
            assert(t[i] == ':');
        } else if i < k {
            assert(t[i] == key[i - n - 1]);
        } else {
            let sub = e.subaddress->0;
            let major = text::decimal(sub.0 as nat);
            let minor = text::decimal(sub.1 as nat);
            if i == k {
                assert(t[i] == ':');
            } else if i < k + 1 + major.len() {
                assert(t[i] == major[i - k - 1]);
                assert(text::is_digit(major[i - k - 1]));
            } else if i == k + 1 + major.len() {
                assert(t[i] == ':');
            } else {
                assert(t[i] == minor[i - k - major.len() - 2]);
                assert(text::is_digit(minor[i - k - major.len() - 2]));
            }
        }
    }
}

/// A number in decimal holds no colon.
proof fn lemma_no_colon(n: nat)
    ensures
        !text::decimal(n).contains(':'),
{
    text::law_decimal_is_digits(n);
    if text::decimal(n).contains(':') {
        let i = choose|i: int| 0 <= i < text::decimal(n).len() && text::decimal(n)[i] == ':';
        assert(text::is_digit(text::decimal(n)[i]));
    }
}

/// What stands between the colons of an entry.
pub open spec fn entry_parts(e: Entry) -> Seq<Seq<char>> {
    let plain = seq![text::decimal(e.index as nat), bytes::hex_text(e.key)];
    match e.subaddress {
        Some(sub) => plain.push(text::decimal(sub.0 as nat)).push(text::decimal(sub.1 as nat)),
        None => plain,
    }
}

/// Cutting an entry at its colons gives its parts.
pub proof fn law_entry_parts(e: Entry)
    ensures
        text::pieces(entry_text(e), ':') == entry_parts(e),
{
    let index = text::decimal(e.index as nat);
    let key = bytes::hex_text(e.key);
    lemma_no_colon(e.index as nat);
    lemma_separators(e);
    text::law_only_piece(index, ':');
    text::law_last_piece(index, ':', key);
    assert(seq![index].push(key) =~= seq![index, key]);
    match e.subaddress {
        Some(sub) => {
            lemma_no_colon(sub.0 as nat);
            lemma_no_colon(sub.1 as nat);
            let plain = index.push(':') + key;
            text::law_last_piece(plain, ':', text::decimal(sub.0 as nat));
            text::law_last_piece(
                plain.push(':') + text::decimal(sub.0 as nat),
                ':',
                text::decimal(sub.1 as nat),
            );
        },
        None => {},
    }
}

/// What stands between the semicolons of a payload.
pub open spec fn payload_parts(tx_pub_key: Seq<u8>, list: Seq<Entry>) -> Seq<Seq<char>> {
    seq!["xmr-output:"@ + bytes::hex_text(tx_pub_key)] + list.map_values(
        |e: Entry| entry_text(e),
    )
}

/// Cutting a payload at its semicolons gives the transaction key and one part for
/// each entry, in order.
pub proof fn law_payload_parts(tx_pub_key: Seq<u8>, list: Seq<Entry>)
    ensures
        text::pieces(payload_text(tx_pub_key, list), ';') == payload_parts(tx_pub_key, list),
    decreases list.len(),
{
    if list.len() == 0 {
        reveal_strlit("xmr-output:");
        let head = "xmr-output:"@ + bytes::hex_text(tx_pub_key);
        let key = bytes::hex_text(tx_pub_key);
        if head.contains(';') {
            let i = choose|i: int| 0 <= i < head.len() && head[i] == ';';
            if i >= 11 {
                assert(head[i] == key[i - 11]);
            }
        }
        text::law_only_piece(head, ';');
        assert(payload_parts(tx_pub_key, list) =~= seq![head]);
    } else {
        let less = list.drop_last();
        law_payload_parts(tx_pub_key, less);
        lemma_separators(list.last());
        text::law_last_piece(payload_text(tx_pub_key, less), ';', entry_text(list.last()));
        assert(payload_parts(tx_pub_key, less).push(entry_text(list.last())) =~= payload_parts(
            tx_pub_key,
            list,
        ));
    }
}

/// Two entries with the same text are the same entry.
pub proof fn law_entries_are_told_apart(a: Entry, b: Entry)
    requires
        entry_text(a) == entry_text(b),
    ensures
        a == b,
{
    law_entry_parts(a);
    law_entry_parts(b);
    let x = entry_parts(a);
    let y = entry_parts(b);
    assert(x == y);
    assert(x.len() == y.len());
    assert(x[0] == y[0] && x[1] == y[1]);
    text::law_decimal_reads_back(a.index);
    text::law_decimal_reads_back(b.index);
    bytes::law_hex_distinguishes(a.key, b.key);
    match (a.subaddress, b.subaddress) {
        (Some(s), Some(t)) => {
            assert(x[2] == y[2] && x[3] == y[3]);
            text::law_decimal_reads_back(s.0 as u64);
            text::law_decimal_reads_back(t.0 as u64);
            text::law_decimal_reads_back(s.1 as u64);
            text::law_decimal_reads_back(t.1 as u64);
        },
        _ => {},
    }
}

/// A payload tells its transaction key and its entries: two payloads with the
/// same text have the same of both.
pub proof fn law_payloads_are_told_apart(
    key1: Seq<u8>,
    list1: Seq<Entry>,
    key2: Seq<u8>,
    list2: Seq<Entry>,
)
    requires
        payload_text(key1, list1) == payload_text(key2, list2),
    ensures
        key1 == key2,
        list1 == list2,
{
    law_payload_parts(key1, list1);
    law_payload_parts(key2, list2);
    let x = payload_parts(key1, list1);
    let y = payload_parts(key2, list2);
    assert(x == y);
    assert(x.len() == list1.len() + 1 && y.len() == list2.len() + 1);
    assert(x[0] == y[0]);
    let h = "xmr-output:"@;
    assert(x[0].skip(h.len() as int) =~= bytes::hex_text(key1));
    assert(y[0].skip(h.len() as int) =~= bytes::hex_text(key2));
    bytes::law_hex_distinguishes(key1, key2);
    assert forall|i: int| 0 <= i < list1.len() implies list1[i] == list2[i] by {
        assert(x[i + 1] == entry_text(list1[i]));
        assert(y[i + 1] == entry_text(list2[i]));
        law_entries_are_told_apart(list1[i], list2[i]);
    }
    assert(list1 =~= list2);
}

} // verus!
