//! Laws of what the device and the user are shown.
use vstd::arithmetic::div_mod::lemma_fundamental_div_mod_converse;
use vstd::prelude::*;

use crate::bytes;
use crate::chain::PointError;
use crate::config::{ArgsFault, ConfigError};
use crate::json::JsonView;
use crate::page;
use crate::payload::{self, Entry};
use crate::rpc::Fault;
use crate::send::{SendFault, SignedFault};
use crate::sync::ScanFault;
use crate::text;
use crate::wallet::OwnedView;

verus! {

// ---------------------------------------------------------------------------
// QR codes
// ---------------------------------------------------------------------------

/// The code of some data is that of the smallest version that holds it, with four
/// modules a side more for each version.
pub proof fn law_smallest_code_is_taken(data: Seq<u8>) -> (version: int)
    ensures
        page::qr_modules(data) matches Some(p) ==> {
            &&& 1 <= version <= 40
            &&& p.0 == 17 + 4 * version
            &&& page::code_modules(version as i16, data) == Some(p.1)
            &&& forall|v: i16|
                1 <= v < version ==> #[trigger] page::code_modules(v, data) is None
        },
        page::qr_modules(data) is None ==> forall|v: i16|
            1 <= v <= 40 ==> #[trigger] page::code_modules(v, data) is None,
{
    lemma_smallest_from(1, data)
}

proof fn lemma_smallest_from(from: int, data: Seq<u8>) -> (version: int)
    requires
        1 <= from <= 41,
    ensures
        page::smallest_from(from, data) matches Some(p) ==> {
            &&& from <= version <= 40
            &&& p.0 == 17 + 4 * version
            &&& page::code_modules(version as i16, data) == Some(p.1)
            &&& forall|v: i16|
                from <= v < version ==> #[trigger] page::code_modules(v, data) is None
        },
        page::smallest_from(from, data) is None ==> forall|v: i16|
            from <= v <= 40 ==> #[trigger] page::code_modules(v, data) is None,
    decreases 41 - from,
{
    if from > 40 {
        from
    } else if page::code_modules(from as i16, data) is Some {
        from
    } else {
        let version = lemma_smallest_from(from + 1, data);
        assert forall|v: i16| from <= v < version && page::smallest_from(
            from,
            data,
        ) is Some implies #[trigger] page::code_modules(v, data) is None by {
            if v == from {
                assert(v == from as i16);
            }
        }
        assert forall|v: i16| from <= v <= 40 && page::smallest_from(
            from,
            data,
        ) is None implies #[trigger] page::code_modules(v, data) is None by {
            if v == from {
                assert(v == from as i16);
            }
        }
        version
    }
}

/// The dark ones among the first modules, row by row.
pub open spec fn dark_places(dark: Seq<bool>, n: int) -> Seq<int>
    decreases n,
{
    if n <= 0 {
        Seq::empty()
    } else if dark[n - 1] {
        dark_places(dark, n - 1).push(n - 1)
    } else {
        dark_places(dark, n - 1)
    }
}

/// The dark modules are listed in order, each once, and no other module is.
proof fn lemma_dark_places(dark: Seq<bool>, n: int)
    requires
        0 <= n <= dark.len(),
    ensures
        forall|i: int| 0 <= i < dark_places(dark, n).len() ==> 0 <= #[trigger] dark_places(dark, n)[i]
            < n && dark[dark_places(dark, n)[i]],
        forall|i: int, j: int|
            0 <= i < j < dark_places(dark, n).len() ==> #[trigger] dark_places(dark, n)[i]
                < #[trigger] dark_places(dark, n)[j],
        forall|p: int| 0 <= p < n && #[trigger] dark[p] ==> dark_places(dark, n).contains(p),
    decreases n,
{
    if n > 0 {
        let less = dark_places(dark, n - 1);
        let all = dark_places(dark, n);
        lemma_dark_places(dark, n - 1);
        assert forall|i: int| 0 <= i < less.len() implies #[trigger] all[i] == less[i] by {}
        assert forall|p: int| 0 <= p < n && #[trigger] dark[p] implies all.contains(p) by {
            if p == n - 1 {
                assert(all[all.len() - 1] == p);
            } else {
                let i = choose|i: int| 0 <= i < less.len() && less[i] == p;
                assert(all[i] == p);
            }
        }
    }
}

/// A square without the character that opens it.
spec fn square(x: int, y: int) -> Seq<char> {
    "rect x='"@ + text::decimal(x as nat) + "' y='"@ + text::decimal(y as nat)
        + "' width='6' height='6' fill='black'/>"@
}

proof fn lemma_no_opening(n: nat)
    ensures
        !text::decimal(n).contains('<'),
{
    text::law_decimal_is_digits(n);
    let t = text::decimal(n);
    if t.contains('<') {
        let i = choose|i: int| 0 <= i < t.len() && t[i] == '<';
        assert(text::is_digit(t[i]));
    }
}

proof fn lemma_join_holds_none(a: Seq<char>, b: Seq<char>, c: char)
    requires
        !a.contains(c),
        !b.contains(c),
    ensures
        !(a + b).contains(c),
{
    let t = a + b;
    if t.contains(c) {
        let i = choose|i: int| 0 <= i < t.len() && t[i] == c;
        if i < a.len() {
            assert(a.contains(a[i]));
        } else {
            assert(b.contains(b[i - a.len()]));
        }
    }
}

proof fn lemma_square(x: int, y: int)
    ensures
        page::module_text(x, y) == seq!['<'] + square(6 * x, 6 * y),
        !square(6 * x, 6 * y).contains('<'),
{
    reveal_strlit("<rect x='");
    reveal_strlit("rect x='");
    reveal_strlit("' y='");
    reveal_strlit("' width='6' height='6' fill='black'/>");
    assert("<rect x='"@ =~= seq!['<'] + "rect x='"@);
    assert(page::module_text(x, y) =~= seq!['<'] + square(6 * x, 6 * y));
    let a = "rect x='"@;
    let b = text::decimal((6 * x) as nat);
    let c = "' y='"@;
    let d = text::decimal((6 * y) as nat);
    let e = "' width='6' height='6' fill='black'/>"@;
    lemma_no_opening((6 * x) as nat);
    lemma_no_opening((6 * y) as nat);
    assert(!a.contains('<'));
    assert(!c.contains('<'));
    assert(!e.contains('<'));
    lemma_join_holds_none(a, b, '<');
    lemma_join_holds_none(a + b, c, '<');
    lemma_join_holds_none(a + b + c, d, '<');
    lemma_join_holds_none(a + b + c + d, e, '<');
}

/// The squares of some modules of a code with a width.
spec fn squares(at: Seq<int>, width: int) -> Seq<Seq<char>> {
    at.map_values(|p: int| square(6 * (p % width), 6 * (p / width)))
}

/// What is drawn of the first rows, and of the first modules of the next one, are
/// the squares of the dark modules among them.
proof fn lemma_drawn(width: int, dark: Seq<bool>, y: int, x: int)
    requires
        dark.len() == width * width,
        0 <= y,
        0 <= x <= width,
        0 < width,
        y * width + x <= width * width,
    ensures
        text::pieces(
            page::rows_text(width, dark, y) + page::row_text(width, dark, y, x),
            '<',
        ) == seq![Seq::<char>::empty()] + squares(dark_places(dark, y * width + x), width),
    decreases y, x,
{
    let drawn = page::rows_text(width, dark, y) + page::row_text(width, dark, y, x);
    let none = seq![Seq::<char>::empty()];
    if x > 0 {
        let p = y * width + x - 1;
        lemma_drawn(width, dark, y, x - 1);
        let before = page::rows_text(width, dark, y) + page::row_text(width, dark, y, x - 1);
        if dark[p] {
            lemma_square(x - 1, y);
            lemma_fundamental_div_mod_converse(p, width, y, x - 1);
            let t = square(6 * (x - 1), 6 * y);
            assert(drawn =~= before.push('<') + t);
            text::law_last_piece(before, '<', t);
            let less = dark_places(dark, p);
            assert(dark_places(dark, p + 1) == less.push(p));
            assert((none + squares(less, width)).push(t) =~= none + squares(less.push(p), width));
        } else {
            assert(drawn =~= before);
        }
    } else if y > 0 {
        assert(y * width == (y - 1) * width + width) by (nonlinear_arith);
        lemma_drawn(width, dark, y - 1, width);
        assert(drawn =~= page::rows_text(width, dark, y - 1) + page::row_text(
            width,
            dark,
            y - 1,
            width,
        ));
    } else {
        assert(drawn =~= Seq::<char>::empty());
        text::law_only_piece(drawn, '<');
        assert(0 * width == 0) by (nonlinear_arith);
        assert(none + squares(Seq::<int>::empty(), width) =~= none);
    }
}

/// A drawn code shows its modules: cut where its elements open, it holds one
/// square for each dark module, with its corner at six times column and row, row
/// by row, and no other. The modules can thus be read back from the image, inside
/// whose frame all squares lie.
pub proof fn law_code_shows_its_modules(width: int, dark: Seq<bool>) -> (at: Seq<int>)
    requires
        0 < width,
        dark.len() == width * width,
    ensures
        forall|p: int| 0 <= p < dark.len() ==> (at.contains(p) <==> #[trigger] dark[p]),
        forall|i: int| 0 <= i < at.len() ==> 0 <= #[trigger] at[i] < dark.len(),
        forall|i: int, j: int| 0 <= i < j < at.len() ==> #[trigger] at[i] < #[trigger] at[j],
        page::svg_text(width, dark)
            == "<svg xmlns='http://www.w3.org/2000/svg' viewBox='0 0 "@ + text::decimal(
            (width * 6) as nat,
        ) + " "@ + text::decimal((width * 6) as nat) + "' shape-rendering='crispEdges'>"@
            + "<rect width='100%' height='100%' fill='white'/>"@ + page::rows_text(
            width,
            dark,
            width,
        ) + "</svg>"@,
        text::pieces(page::rows_text(width, dark, width), '<').len() == at.len() + 1,
        text::pieces(page::rows_text(width, dark, width), '<')[0].len() == 0,
        forall|i: int|
            0 <= i < at.len() ==> text::pieces(page::rows_text(width, dark, width), '<')[i + 1]
                == "rect x='"@ + text::decimal((6 * (#[trigger] at[i] % width)) as nat) + "' y='"@
                + text::decimal((6 * (at[i] / width)) as nat)
                + "' width='6' height='6' fill='black'/>"@,
        forall|i: int|
            0 <= i < at.len() ==> 6 * (#[trigger] at[i] % width) + 6 <= 6 * width && 6 * (at[i]
                / width) + 6 <= 6 * width,
{
    let at = dark_places(dark, dark.len() as int);
    lemma_dark_places(dark, dark.len() as int);
    assert(width * width + 0 <= width * width);
    lemma_drawn(width, dark, width, 0);
    let drawn = page::rows_text(width, dark, width);
    assert(drawn + page::row_text(width, dark, width, 0) =~= drawn);
    let all = text::pieces(drawn, '<');
    assert(all == seq![Seq::<char>::empty()] + squares(at, width));
    assert forall|i: int| 0 <= i < at.len() implies all[i + 1] == "rect x='"@ + text::decimal(
        (6 * (#[trigger] at[i] % width)) as nat,
    ) + "' y='"@ + text::decimal((6 * (at[i] / width)) as nat)
        + "' width='6' height='6' fill='black'/>"@ by {
        assert(all[i + 1] == squares(at, width)[i]);
    }
    assert forall|i: int| 0 <= i < at.len() implies 6 * (#[trigger] at[i] % width) + 6 <= 6 * width
        && 6 * (at[i] / width) + 6 <= 6 * width by {
        let p = at[i];
        assert(0 <= p % width < width && p / width < width) by (nonlinear_arith)
            requires
                0 <= p < width * width,
                0 < width,
        ;
    }
    assert forall|p: int| 0 <= p < dark.len() implies (at.contains(p) <==> #[trigger] dark[p]) by {
        if at.contains(p) {
            let i = choose|i: int| 0 <= i < at.len() && at[i] == p;
            assert(dark[at[i]]);
        }
    }
    at
}

/// Two codes of the same width that are drawn alike are the same.
pub proof fn law_codes_are_told_apart(width: int, a: Seq<bool>, b: Seq<bool>)
    requires
        0 < width,
        width * 6 <= u64::MAX,
        a.len() == width * width,
        b.len() == width * width,
        page::rows_text(width, a, width) == page::rows_text(width, b, width),
    ensures
        a == b,
{
    let x = law_code_shows_its_modules(width, a);
    let y = law_code_shows_its_modules(width, b);
    let all = text::pieces(page::rows_text(width, a, width), '<');
    assert(x.len() == y.len());
    assert forall|i: int| 0 <= i < x.len() implies x[i] == y[i] by {
        let (p, q) = (x[i], y[i]);
        assert(6 * (p % width) + 6 <= 6 * width && 6 * (p / width) + 6 <= 6 * width);
        assert(6 * (q % width) + 6 <= 6 * width && 6 * (q / width) + 6 <= 6 * width);
        assert(0 <= p % width && 0 <= q % width && 0 <= p / width && 0 <= q / width)
            by (nonlinear_arith)
            requires
                0 <= p,
                0 <= q,
                0 < width,
        ;
        assert(all[i + 1] == square(6 * (p % width), 6 * (p / width)));
        assert(all[i + 1] == square(6 * (q % width), 6 * (q / width)));
        lemma_squares_differ(
            (6 * (p % width)) as nat,
            (6 * (p / width)) as nat,
            (6 * (q % width)) as nat,
            (6 * (q / width)) as nat,
        );
        assert(p == width * (p / width) + p % width) by (nonlinear_arith)
            requires
                0 < width,
        ;
        assert(q == width * (q / width) + q % width) by (nonlinear_arith)
            requires
                0 < width,
        ;
    }
    assert forall|p: int| 0 <= p < a.len() implies a[p] == b[p] by {
        if a[p] {
            let i = choose|i: int| 0 <= i < x.len() && x[i] == p;
            assert(y.contains(y[i]));
        }
        if b[p] {
            let i = choose|i: int| 0 <= i < y.len() && y[i] == p;
            assert(x.contains(x[i]));
        }
    }
    assert(a =~= b);
}

/// Squares with the same text have the same corner.
proof fn lemma_squares_differ(x1: nat, y1: nat, x2: nat, y2: nat)
    requires
        x1 <= u64::MAX,
        y1 <= u64::MAX,
        x2 <= u64::MAX,
        y2 <= u64::MAX,
        square(x1 as int, y1 as int) == square(x2 as int, y2 as int),
    ensures
        x1 == x2,
        y1 == y2,
{
    lemma_square_parts(x1, y1);
    lemma_square_parts(x2, y2);
    let parts = text::pieces(square(x1 as int, y1 as int), '\'');
    assert(parts[1] == text::decimal(x1) && parts[1] == text::decimal(x2));
    assert(parts[3] == text::decimal(y1) && parts[3] == text::decimal(y2));
    text::law_decimal_reads_back(x1 as u64);
    text::law_decimal_reads_back(x2 as u64);
    text::law_decimal_reads_back(y1 as u64);
    text::law_decimal_reads_back(y2 as u64);
}

proof fn lemma_no_quote(n: nat)
    ensures
        !text::decimal(n).contains('\''),
{
    text::law_decimal_is_digits(n);
    let t = text::decimal(n);
    if t.contains('\'') {
        let i = choose|i: int| 0 <= i < t.len() && t[i] == '\'';
        assert(text::is_digit(t[i]));
    }
}

/// The corner of a square stands between its quotes.
proof fn lemma_square_parts(x: nat, y: nat)
    ensures
        ({
            let parts = text::pieces(square(x as int, y as int), '\'');
            parts.len() == 11 && parts[1] == text::decimal(x) && parts[3] == text::decimal(y)
        }),
{
    reveal_strlit("rect x='");
    reveal_strlit("' y='");
    reveal_strlit("' width='6' height='6' fill='black'/>");
    let q = '\'';
    let t0 = seq!['r', 'e', 'c', 't', ' ', 'x', '='];
    let t1 = text::decimal(x);
    let t2 = seq![' ', 'y', '='];
    let t3 = text::decimal(y);
    let t4 = seq![' ', 'w', 'i', 'd', 't', 'h', '='];
    let t5 = seq!['6'];
    let t6 = seq![' ', 'h', 'e', 'i', 'g', 'h', 't', '='];
    let t8 = seq![' ', 'f', 'i', 'l', 'l', '='];
    let t9 = seq!['b', 'l', 'a', 'c', 'k'];
    let t10 = seq!['/', '>'];
    lemma_no_quote(x);
    lemma_no_quote(y);
    let s1 = t0.push(q) + t1;
    let s2 = s1.push(q) + t2;
    let s3 = s2.push(q) + t3;
    let s4 = s3.push(q) + t4;
    let s5 = s4.push(q) + t5;
    let s6 = s5.push(q) + t6;
    let s7 = s6.push(q) + t5;
    let s8 = s7.push(q) + t8;
    let s9 = s8.push(q) + t9;
    let s10 = s9.push(q) + t10;
    assert("rect x='"@ =~= t0.push(q));
    assert("' y='"@ =~= (seq![q] + t2).push(q));
    assert("' width='6' height='6' fill='black'/>"@ =~= seq![q] + t4 + seq![q] + t5 + seq![q] + t6
        + seq![q] + t5 + seq![q] + t8 + seq![q] + t9 + seq![q] + t10);
    assert(square(x as int, y as int) =~= s10);
    text::law_only_piece(t0, q);
    text::law_last_piece(t0, q, t1);
    text::law_last_piece(s1, q, t2);
    text::law_last_piece(s2, q, t3);
    text::law_last_piece(s3, q, t4);
    text::law_last_piece(s4, q, t5);
    text::law_last_piece(s5, q, t6);
    text::law_last_piece(s6, q, t5);
    text::law_last_piece(s7, q, t8);
    text::law_last_piece(s8, q, t9);
    text::law_last_piece(s9, q, t10);
}

// ---------------------------------------------------------------------------
// Payloads
// ---------------------------------------------------------------------------

/// An entry tells its index and its key, and the subaddress where there is one,
/// with colons between them.
pub proof fn law_entry_tells(e: Entry)
    ensures
        e.subaddress is None ==> text::pieces(payload::entry_text(e), ':') == seq![
            text::decimal(e.index as nat),
            bytes::hex_text(e.key),
        ],
        e.subaddress matches Some(sub) ==> text::pieces(payload::entry_text(e), ':') == seq![
            text::decimal(e.index as nat),
            bytes::hex_text(e.key),
            text::decimal(sub.0 as nat),
            text::decimal(sub.1 as nat),
        ],
{
    payload::law_entry_parts(e);
    match e.subaddress {
        Some(sub) => {
            assert(payload::entry_parts(e) =~= seq![
                text::decimal(e.index as nat),
                bytes::hex_text(e.key),
                text::decimal(sub.0 as nat),
                text::decimal(sub.1 as nat),
            ]);
        },
        None => {},
    }
}

/// A payload tells the transaction key, and behind it every entry in order, with
/// semicolons between them.
pub proof fn law_payload_tells(key: Seq<u8>, list: Seq<Entry>, i: int)
    requires
        0 <= i < list.len(),
    ensures
        text::pieces(payload::payload_text(key, list), ';').len() == list.len() + 1,
        text::pieces(payload::payload_text(key, list), ';')[0] == "xmr-output:"@ + bytes::hex_text(
            key,
        ),
        text::pieces(payload::payload_text(key, list), ';')[i + 1] == payload::entry_text(list[i]),
{
    payload::law_payload_parts(key, list);
}

/// The entries of a transaction are those of the outputs with its key, in order;
/// an output with another key adds none.
pub proof fn law_entries_follow_the_outputs(
    a: Seq<OwnedView>,
    b: Seq<OwnedView>,
    o: OwnedView,
    key: Seq<u8>,
)
    ensures
        payload::entries_of(a + b, key) == payload::entries_of(a, key) + payload::entries_of(b, key),
        o.tx_pub_key == key ==> payload::entries_of(seq![o], key) == seq![
            Entry { index: o.index_in_tx, key: o.key, subaddress: None },
        ],
        o.tx_pub_key != key ==> payload::entries_of(seq![o], key).len() == 0,
    decreases b.len(),
{
    reveal_with_fuel(payload::entries_of, 2);
    assert(seq![o].drop_last() =~= Seq::<OwnedView>::empty());
    assert(seq![o].last() == o);
    if o.tx_pub_key == key {
        assert(payload::entries_of(seq![o], key) =~= seq![
            Entry { index: o.index_in_tx, key: o.key, subaddress: None },
        ]);
    }
    if b.len() == 0 {
        assert(a + b =~= a);
        assert(payload::entries_of(a, key) + payload::entries_of(b, key) =~= payload::entries_of(
            a,
            key,
        ));
    } else {
        assert((a + b).drop_last() =~= a + b.drop_last());
        assert((a + b).last() == b.last());
        law_entries_follow_the_outputs(a, b.drop_last(), o, key);
        assert(payload::entries_of(a + b, key) =~= payload::entries_of(a, key)
            + payload::entries_of(b, key));
    }
}

/// The transaction keys come in the order in which outputs first have them: more
/// outputs only add keys behind, and none that is there already.
pub proof fn law_keys_come_in_order(a: Seq<OwnedView>, b: Seq<OwnedView>, o: OwnedView)
    ensures
        payload::tx_keys(a + b).len() >= payload::tx_keys(a).len(),
        payload::tx_keys(a + b).take(payload::tx_keys(a).len() as int) == payload::tx_keys(a),
        payload::tx_keys(a).contains(o.tx_pub_key) ==> payload::tx_keys(a.push(o))
            == payload::tx_keys(a),
        !payload::tx_keys(a).contains(o.tx_pub_key) ==> payload::tx_keys(a.push(o))
            == payload::tx_keys(a).push(o.tx_pub_key),
    decreases b.len(),
{
    assert(a.push(o).drop_last() =~= a);
    assert(a.push(o).last() == o);
    let front = payload::tx_keys(a);
    if b.len() == 0 {
        assert(a + b =~= a);
        assert(front.take(front.len() as int) =~= front);
    } else {
        assert((a + b).drop_last() =~= a + b.drop_last());
        law_keys_come_in_order(a, b.drop_last(), o);
        let less = payload::tx_keys(a + b.drop_last());
        assert(payload::tx_keys(a + b).take(front.len() as int) =~= less.take(front.len() as int));
    }
}

/// There is one payload for each transaction key that an output has, and it is of
/// that key and its outputs.
pub proof fn law_one_payload_for_each_key(outputs: Seq<OwnedView>, k: int)
    requires
        0 <= k < payload::tx_keys(outputs).len(),
    ensures
        payload::payloads_of(outputs).len() == payload::tx_keys(outputs).len(),
        payload::payloads_of(outputs)[k] == payload::payload_text(
            payload::tx_keys(outputs)[k],
            payload::entries_of(outputs, payload::tx_keys(outputs)[k]),
        ),
        exists|i: int|
            0 <= i < outputs.len() && (#[trigger] outputs[i]).tx_pub_key == payload::tx_keys(
                outputs,
            )[k],
    decreases outputs.len(),
{
    let less = outputs.drop_last();
    let before = payload::tx_keys(less);
    if k < before.len() {
        law_one_payload_for_each_key(less, k);
        let i = choose|i: int|
            0 <= i < less.len() && (#[trigger] less[i]).tx_pub_key == before[k];
        assert(outputs[i] == less[i]);
    } else {
        assert(outputs[outputs.len() - 1].tx_pub_key == payload::tx_keys(outputs)[k]);
    }
}

// ---------------------------------------------------------------------------
// Pages
// ---------------------------------------------------------------------------

/// A text holds another somewhere.
pub open spec fn holds(whole: Seq<char>, part: Seq<char>) -> bool {
    exists|a: Seq<char>, b: Seq<char>| whole == #[trigger] ((a + part) + b)
}

proof fn lemma_holds(whole: Seq<char>, a: Seq<char>, part: Seq<char>, b: Seq<char>)
    requires
        whole =~= (a + part) + b,
    ensures
        holds(whole, part),
{
    assert(whole == (a + part) + b);
}

/// What a part of a text holds, the text holds.
proof fn lemma_holds_within(whole: Seq<char>, part: Seq<char>, inner: Seq<char>)
    requires
        holds(whole, part),
        holds(part, inner),
    ensures
        holds(whole, inner),
{
    let (a, b) = choose|a: Seq<char>, b: Seq<char>| whole == #[trigger] ((a + part) + b);
    let (c, d) = choose|c: Seq<char>, d: Seq<char>| part == #[trigger] ((c + inner) + d);
    lemma_holds(whole, a + c, inner, d + b);
}

/// A page holds its title and its body.
pub proof fn law_page_holds_title_and_body(title: Seq<char>, body: Seq<char>)
    ensures
        holds(page::page_text(title, body), "<title>"@ + title),
        holds(page::page_text(title, body), "<body>"@ + body + "</body></html>"@),
{
    let whole = page::page_text(title, body);
    reveal_strlit("<title>");
    reveal_strlit("<body>");
    lemma_head_ends();
    lemma_style_ends();
    let head = page::PAGE_HEAD@;
    let style = page::PAGE_STYLE@;
    let h = head.len() - 7;
    let s = style.len() - 6;
    lemma_holds(whole, head.take(h), "<title>"@ + title, style + body + page::PAGE_TAIL@);
    lemma_holds(
        whole,
        head + title + style.take(s),
        "<body>"@ + body + "</body></html>"@,
        Seq::empty(),
    );
}

proof fn lemma_head_ends()
    ensures
        page::PAGE_HEAD@.len() >= 7,
        page::PAGE_HEAD@.skip(page::PAGE_HEAD@.len() - 7) == "<title>"@,
{
    reveal_strlit("<!DOCTYPE html><html><head><meta charset='utf-8'><meta name='viewport' content='width=device-width,initial-scale=1'><title>");
    reveal_strlit("<title>");
    assert(page::PAGE_HEAD@.skip(page::PAGE_HEAD@.len() - 7) =~= "<title>"@);
}

proof fn lemma_style_ends()
    ensures
        page::PAGE_STYLE@.len() >= 6,
        page::PAGE_STYLE@.skip(page::PAGE_STYLE@.len() - 6) == "<body>"@,
{
    reveal_strlit("<body>");
    reveal_strlit("</title>
        <style>
        body { background:#000; color:#fff; font-family:ui-monospace,monospace; padding:16px; }
        .qr { background:#fff; padding:12px; display:inline-block; border-radius:8px; }
        .qrs { display:flex; gap:16px; flex-wrap:wrap; }
        .qrs .qr { margin-bottom:8px; }
        h2 { color:#ff6a00; }
        .big { font-size:18px; }
        .err { color:#ff4444; }
        code { background:#222; padding:2px 6px; border-radius:4px; }
        table { border-collapse:collapse; margin-top:16px; }
        td,th { border:1px solid #333; padding:4px 10px; text-align:left; }
        a { color:#ff8c42; }
        </style></head><body>");
    assert(page::PAGE_STYLE@.skip(page::PAGE_STYLE@.len() - 6) =~= "<body>"@);
}

proof fn lemma_body_in_page(title: Seq<char>, body: Seq<char>, part: Seq<char>)
    requires
        holds(body, part),
    ensures
        holds(page::page_text(title, body), part),
{
    lemma_holds(
        page::page_text(title, body),
        page::PAGE_HEAD@ + title + page::PAGE_STYLE@,
        body,
        page::PAGE_TAIL@,
    );
    lemma_holds_within(page::page_text(title, body), body, part);
}

/// The page for sending shows the amount, the destination, the number of inputs,
/// the code and the whole envelope.
pub proof fn law_send_page_shows(
    amount: Seq<char>,
    to: Seq<char>,
    inputs: nat,
    svg: Seq<char>,
    envelope: Seq<char>,
    title: Seq<char>,
)
    ensures
        ({
            let whole = page::page_text(title, page::send_body(amount, to, inputs, svg, envelope));
            &&& holds(whole, "<h2>Send "@ + amount + " XMR</h2><p>to <code>"@ + to)
            &&& holds(whole, page::SEND_FEE@ + text::decimal(inputs) + page::SEND_HINT@)
            &&& holds(whole, page::SEND_HINT@ + svg + page::SEND_FALLBACK@)
            &&& holds(whole, page::SEND_FALLBACK@ + envelope + "</code></p>"@)
        }),
{
    let body = page::send_body(amount, to, inputs, svg, envelope);
    let first = "<h2>Send "@ + amount + " XMR</h2><p>to <code>"@ + to;
    let count = page::SEND_FEE@ + text::decimal(inputs) + page::SEND_HINT@;
    let code = page::SEND_HINT@ + svg + page::SEND_FALLBACK@;
    let hex = page::SEND_FALLBACK@ + envelope + "</code></p>"@;
    let behind = page::SEND_FALLBACK@ + envelope + "</code></p>"@;
    lemma_holds(
        body,
        Seq::empty(),
        first,
        page::SEND_FEE@ + text::decimal(inputs) + page::SEND_HINT@ + svg + behind,
    );
    lemma_holds(body, first, count, svg + behind);
    lemma_holds(
        body,
        first + page::SEND_FEE@ + text::decimal(inputs),
        code,
        envelope + "</code></p>"@,
    );
    lemma_holds(body, first + count + svg, hex, Seq::empty());
    lemma_body_in_page(title, body, first);
    lemma_body_in_page(title, body, count);
    lemma_body_in_page(title, body, code);
    lemma_body_in_page(title, body, hex);
}

/// The page for a published transaction shows its whole hash, and that for a
/// failure its message.
pub proof fn law_other_pages_show(hash: Seq<u8>, title: Seq<char>, message: Seq<char>)
    ensures
        holds(
            page::page_text(title, page::broadcast_body(hash)),
            "tx hash: <code>"@ + bytes::hex_text(hash) + "</code>"@,
        ),
        holds(
            page::page_text(title, "<p class='err'>"@ + message + "</p>"@),
            "<p class='err'>"@ + message + "</p>"@,
        ),
{
    reveal_strlit("<h2>✅ broadcast</h2><p>The transaction was accepted by the node.</p><p>tx hash: <code>");
    reveal_strlit("tx hash: <code>");
    reveal_strlit("</code></p>");
    reveal_strlit("</code>");
    reveal_strlit("</p>");
    let head = "<h2>✅ broadcast</h2><p>The transaction was accepted by the node.</p><p>tx hash: <code>"@;
    let n = head.len() - "tx hash: <code>"@.len();
    assert(head.skip(n) =~= "tx hash: <code>"@);
    let body = page::broadcast_body(hash);
    let part = "tx hash: <code>"@ + bytes::hex_text(hash) + "</code>"@;
    assert("</code></p>"@ =~= "</code>"@ + "</p>"@);
    lemma_holds(body, head.take(n), part, "</p>"@);
    lemma_body_in_page(title, body, part);
    let failed = "<p class='err'>"@ + message + "</p>"@;
    lemma_holds(failed, Seq::empty(), failed, Seq::empty());
    lemma_body_in_page(title, failed, failed);
}

/// Codes in a row are each drawn, in order: those of one list, then those of another.
pub proof fn law_codes_in_a_row(a: Seq<Seq<char>>, b: Seq<Seq<char>>, t: Seq<char>)
    ensures
        page::qrs_text(a + b) == page::qrs_text(a) + page::qrs_text(b),
        page::qrs_text(seq![t]) == page::qr_text(page::qr_modules(vstd::utf8::encode_utf8(t))),
    decreases b.len(),
{
    reveal_with_fuel(page::qrs_text, 2);
    assert(seq![t].drop_last() =~= Seq::<Seq<char>>::empty());
    assert(seq![t].last() == t);
    assert(page::qrs_text(seq![t]) =~= page::qr_text(
        page::qr_modules(vstd::utf8::encode_utf8(t)),
    ));
    if b.len() == 0 {
        assert(a + b =~= a);
        assert(page::qrs_text(a) + page::qrs_text(b) =~= page::qrs_text(a));
    } else {
        assert((a + b).drop_last() =~= a + b.drop_last());
        assert((a + b).last() == b.last());
        law_codes_in_a_row(a, b.drop_last(), t);
        assert(page::qrs_text(a + b) =~= page::qrs_text(a) + page::qrs_text(b));
    }
}

/// The image of a code that there is shows it, and where there is none it says so.
pub proof fn law_image_shows_the_code(width: usize, dark: Seq<bool>)
    ensures
        page::qr_text(Some((width, dark))) == page::svg_text(width as int, dark),
        page::qr_text(None) == "<p>QR encode failed</p>"@,
{
}

/// The sync page shows the address, the balance, how many outputs there are, how
/// far the wallet is scanned, and all codes.
pub proof fn law_sync_page_shows(
    title: Seq<char>,
    address: Seq<char>,
    balance: Seq<char>,
    outputs: Seq<OwnedView>,
    amounts: Seq<Seq<char>>,
    scanned_to: nat,
)
    ensures
        ({
            let whole = page::page_text(
                title,
                page::sync_body(address, balance, outputs, amounts, scanned_to),
            );
            &&& holds(
                whole,
                "<h2>"@ + address + "</h2><p class='big'>balance: <b>"@ + balance + " XMR</b> · "@
                    + text::decimal(outputs.len()) + " output(s) · synced to block "@
                    + text::decimal(scanned_to) + page::SYNC_HINT@,
            )
            &&& holds(
                whole,
                page::SYNC_HINT@ + page::qrs_text(payload::payloads_of(outputs))
                    + page::SYNC_TABLE@,
            )
            &&& holds(
                whole,
                page::SYNC_TABLE@ + page::output_rows(outputs, amounts, outputs.len() as int)
                    + "</table>"@,
            )
        }),
{
    let body = page::sync_body(address, balance, outputs, amounts, scanned_to);
    let head = "<h2>"@ + address + "</h2><p class='big'>balance: <b>"@ + balance + " XMR</b> · "@
        + text::decimal(outputs.len()) + " output(s) · synced to block "@ + text::decimal(
        scanned_to,
    );
    let codes = page::qrs_text(payload::payloads_of(outputs));
    let rows = page::output_rows(outputs, amounts, outputs.len() as int);
    let one = head + page::SYNC_HINT@;
    let two = page::SYNC_HINT@ + codes + page::SYNC_TABLE@;
    let three = page::SYNC_TABLE@ + rows + "</table>"@;
    lemma_holds(body, Seq::empty(), one, codes + three);
    lemma_holds(body, head, two, rows + "</table>"@);
    lemma_holds(body, one + codes, three, Seq::empty());
    lemma_body_in_page(title, body, one);
    lemma_body_in_page(title, body, two);
    lemma_body_in_page(title, body, three);
}

/// The table shows every output in order, each with the start of its transaction
/// key, its indexes and its amount.
pub proof fn law_table_shows_every_output(
    outputs: Seq<OwnedView>,
    amounts: Seq<Seq<char>>,
    n: int,
    i: int,
)
    requires
        0 <= i < n <= outputs.len(),
        amounts.len() == outputs.len(),
    ensures
        holds(
            page::output_rows(outputs, amounts, n),
            "<tr><td>"@ + bytes::hex_text(outputs[i].tx_pub_key.take(4)) + "</td><td>tx "@
                + text::decimal(outputs[i].index_on_chain as nat) + "</td><td>idx "@
                + text::decimal(outputs[i].index_in_tx as nat) + "</td><td>"@ + amounts[i]
                + " XMR</td></tr>"@,
        ),
        page::output_rows(outputs, amounts, 0).len() == 0,
    decreases n,
{
    let row = "<tr><td>"@ + bytes::hex_text(outputs[i].tx_pub_key.take(4)) + "</td><td>tx "@
        + text::decimal(outputs[i].index_on_chain as nat) + "</td><td>idx "@ + text::decimal(
        outputs[i].index_in_tx as nat,
    ) + "</td><td>"@ + amounts[i] + " XMR</td></tr>"@;
    let all = page::output_rows(outputs, amounts, n);
    let less = page::output_rows(outputs, amounts, n - 1);
    if i == n - 1 {
        assert(page::output_row(outputs[i], amounts[i]) =~= row);
        lemma_holds(all, less, row, Seq::empty());
    } else {
        law_table_shows_every_output(outputs, amounts, n - 1, i);
        lemma_holds(
            all,
            Seq::empty(),
            less,
            page::output_row(outputs[n - 1], amounts[n - 1]),
        );
        lemma_holds_within(all, less, row);
    }
}

// ---------------------------------------------------------------------------
// Errors
// ---------------------------------------------------------------------------

/// An envelope that is too big is said to be, with its size in full.
pub proof fn law_size_is_named(size: nat, amount: Seq<char>)
    ensures
        holds((SendFault::TooBig { size }).words(amount), text::decimal(size) + " bytes > "@),
{
    lemma_holds(
        (SendFault::TooBig { size }).words(amount),
        "envelope too big for a single QR ("@,
        text::decimal(size) + " bytes > "@,
        text::decimal(crate::words::exceeded(size))
            + "). Use fewer inputs or a larger QR-capable viewer."@,
    );
}

/// A fee that is not covered is named in full.
pub proof fn law_fee_is_named(fee: u64, amount: Seq<char>)
    ensures
        holds(
            (SendFault::WantOfFunds { fee }).words(amount),
            text::decimal(fee as nat) + " piconeros is needed"@,
        ),
{
    lemma_holds(
        (SendFault::WantOfFunds { fee }).words(amount),
        "insufficient funds: a fee of "@,
        text::decimal(fee as nat) + " piconeros is needed"@,
        Seq::empty(),
    );
}

/// Funds that do not suffice are named as they are given.
pub proof fn law_funds_are_named(available: nat, amount: Seq<char>)
    ensures
        (SendFault::InsufficientFunds { available }).words(amount) == "insufficient funds: "@ + amount
            + " XMR available"@,
{
}

/// Errors keep what they are told, in full.
pub proof fn law_messages_are_kept(m: Seq<char>, amount: Seq<char>, call: Seq<char>, v: JsonView)
    ensures
        holds(Fault::BlockParse(m).words(), ": "@ + m),
        Fault::BlockParse(m).words() == "block parse: "@ + m,
        Fault::TxParse(m).words() == "tx parse: "@ + m,
        (Fault::Refused { call, error: v }).words() == "rpc "@ + call + " error: "@ + v.written(),
        (Fault::NoResult { call }).words() == "rpc "@ + call + ": no result"@,
        (Fault::Rejected { status: None, reason: v }).words() == "daemon refused: "@ + "None"@
            + " reason="@ + v.written(),
        (Fault::Rejected { status: Some(m), reason: v }).words() == "daemon refused: "@ + ("Some("@
            + crate::words::quoted(m) + ")"@) + " reason="@ + v.written(),
        SendFault::DestinationParse(m).words(amount) == "destination parse: "@ + m,
        SendFault::Ring(m).words(amount) == "ring parse: "@ + m,
        SendFault::Build(m).words(amount) == "build tx: "@ + m,
        SignedFault::Parse(m).words() == "signed tx parse: "@ + m,
        ScanFault::Scanner(m).words() == "scanner: "@ + m,
        ArgsFault::UnknownCommand(m).words() == "unknown command "@ + m,
        ArgsFault::UnknownFlag(m).words() == "unknown flag "@ + m,
        ConfigError::NoAddress.words(m) == "no address= in "@ + m,
        ConfigError::NoViewKey.words(m) == "no view_key= in "@ + m,
{
    reveal_strlit("block parse: ");
    reveal_strlit(": ");
    let head = "block parse: "@;
    assert(head.skip(11) =~= ": "@);
    lemma_holds(Fault::BlockParse(m).words(), head.take(11), ": "@ + m, Seq::empty());
}

/// The node is blamed exactly for what only a bad node says; the words tell who is
/// blamed, and hold those of the error.
pub proof fn law_blame_is_told(f: Fault)
    ensures
        f.blames_node() <==> (f == Fault::Point(PointError::InvalidPoint) || f is TxidLength
            || f is NoHash || f is HashHex || f is HashLength || f is TxCount || f is ForeignTx
            || f is OutCount),
        f.blames_node() ==> f.blame_words() == "invalid node ("@ + f.words() + ")"@,
        !f.blames_node() ==> f.blame_words() == "internal error ("@ + f.words() + ")"@,
        f is InvalidFee ==> SendFault::Fee(f).words(Seq::empty()) == "fee: "@ + "invalid fee"@,
        !(f is InvalidFee) ==> SendFault::Fee(f).words(Seq::empty()) == "fee: "@ + (
        "interface error ("@ + f.blame_words() + ")"@),
{
}

} // verus!
