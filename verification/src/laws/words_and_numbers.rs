//! Laws of texts, numbers, bytes and lists.
use vstd::arithmetic::div_mod::lemma_div_denominator;
use vstd::arithmetic::power::{lemma_pow_positive, pow};
use vstd::prelude::*;

use crate::bytes;
use crate::list;
use crate::text;

verus! {

// ---------------------------------------------------------------------------
// Numbers
// ---------------------------------------------------------------------------

/// The digit of a number at a place of its decimal form is the one that the place
/// stands for: ones at the end, tens before them, and so on.
pub proof fn law_decimal_digits(n: nat, i: int)
    requires
        0 <= i < text::decimal(n).len(),
    ensures
        text::decimal(n)[i] as u32 == 48 + (n as int / pow(
            10,
            (text::decimal(n).len() - 1 - i) as nat,
        )) % 10,
    decreases n,
{
    let all = text::decimal(n);
    let k = (all.len() - 1 - i) as nat;
    reveal(pow);
    if n < 10 {
        assert(pow(10, 0) == 1);
    } else if k == 0 {
        assert(pow(10, 0) == 1);
        assert(all[i] as u32 == 48 + n % 10);
    } else {
        law_decimal_digits(n / 10, i);
        let less = (k - 1) as nat;
        assert(all[i] == text::decimal(n / 10)[i]);
        assert(pow(10, k) == 10 * pow(10, less));
        lemma_pow_positive(10, less);
        lemma_div_denominator(n as int, 10, pow(10, less));
    }
}

/// A number in decimal has no more digits than it needs, and enough of them.
pub proof fn law_decimal_length(n: nat)
    ensures
        text::decimal(n).len() > 0,
        n < pow(10, text::decimal(n).len()),
        text::decimal(n).len() > 1 ==> n >= pow(10, (text::decimal(n).len() - 1) as nat),
    decreases n,
{
    reveal(pow);
    if n < 10 {
        assert(pow(10, 0) == 1);
        assert(pow(10, 1) == 10 * pow(10, 0));
    } else {
        law_decimal_length(n / 10);
        let k = text::decimal(n / 10).len();
        assert(pow(10, k + 1) == 10 * pow(10, k));
        if k == 1 {
            assert(pow(10, 0) == 1);
            assert(pow(10, 1) == 10 * pow(10, 0));
        } else {
            assert(pow(10, k) == 10 * pow(10, (k - 1) as nat));
        }
    }
}

/// A digit denotes its value, and digits behind others denote what they would
/// alone, with the others moved up as many places.
pub proof fn law_digits_join(a: Seq<char>, b: Seq<char>)
    requires
        text::all_digits(b),
    ensures
        text::digits_value(a + b) == text::digits_value(a) * pow(10, b.len())
            + text::digits_value(b),
        forall|c: char| #[trigger] text::is_digit(c) ==> text::digits_value(seq![c]) == c as u32 - 48,
    decreases b.len(),
{
    reveal(pow);
    assert forall|c: char| #[trigger] text::is_digit(c) implies text::digits_value(seq![c])
        == c as u32 - 48 by {
        assert(seq![c].drop_last() =~= Seq::<char>::empty());
        reveal_with_fuel(text::digits_value, 2);
    }
    if b.len() == 0 {
        assert(a + b =~= a);
    } else {
        let less = b.drop_last();
        assert forall|i: int| 0 <= i < less.len() implies text::is_digit(#[trigger] less[i]) by {
            assert(less[i] == b[i]);
        }
        assert(text::is_digit(b[b.len() - 1]));
        law_digits_join(a, less);
        assert((a + b).drop_last() =~= a + less);
        assert((a + b).last() == b.last());
        let p = pow(10, less.len());
        let x = text::digits_value(a);
        let y = text::digits_value(less);
        assert(pow(10, b.len()) == 10 * p);
        assert((x * p + y) * 10 == x * (10 * p) + y * 10) by (nonlinear_arith);
    }
}

/// A text is read as a number exactly where it is one: digits, or a plus sign and
/// digits, and no more than fits.
pub proof fn law_numbers_are_read(s: Seq<char>)
    requires
        s.len() > 0,
        forall|i: int| 0 <= i < s.len() ==> 48 <= #[trigger] s[i] as u32 <= 57,
    ensures
        text::digits_value(s) <= u64::MAX ==> text::parsed_u64(s) == Some(
            text::digits_value(s) as u64,
        ),
        text::digits_value(s) > u64::MAX ==> text::parsed_u64(s) is None,
        text::parsed_u64(seq!['+'] + s) == text::parsed_u64(s),
{
    assert forall|i: int| 0 <= i < s.len() implies text::is_digit(#[trigger] s[i]) by {
        assert(48 <= s[i] as u32 <= 57);
    }
    assert(48 <= s[0] as u32 <= 57);
    assert('+' as u32 == 43);
    assert((seq!['+'] + s).skip(1) =~= s);
    assert((seq!['+'] + s)[0] == '+');
}

/// A text that is no number is not read as one.
pub proof fn law_other_texts_are_no_numbers(s: Seq<char>, i: int)
    requires
        s.len() == 0 || s == seq!['+'] || (0 <= i < s.len() && !(48 <= s[i] as u32 <= 57) && !(i == 0
            && s[0] == '+')),
    ensures
        text::parsed_u64(s) is None,
{
    let digits = text::unsigned_part(s);
    if s.len() > 0 && s != seq!['+'] {
        if s[0] == '+' {
            assert(digits[i - 1] == s[i]);
            assert(!text::is_digit(digits[i - 1]));
        } else {
            assert(!text::is_digit(digits[i]));
        }
    } else if s == seq!['+'] {
        assert(digits.len() == 0);
    }
}

// ---------------------------------------------------------------------------
// Texts
// ---------------------------------------------------------------------------

/// What is left of a text is a part of it, and all around that part is white space.
pub proof fn law_trimmed_is_a_part(s: Seq<char>) -> (r: (int, int))
    ensures
        0 <= r.0 <= r.1 <= s.len(),
        text::trimmed(s) == s.subrange(r.0, r.1),
        forall|i: int| 0 <= i < r.0 ==> text::white_space(#[trigger] s[i]),
        forall|i: int| r.1 <= i < s.len() ==> text::white_space(#[trigger] s[i]),
        r.0 < r.1 ==> !text::white_space(s[r.0]) && !text::white_space(s[r.1 - 1]),
    decreases s.len(),
{
    text::law_trimmed_has_no_space_around(s);
    if s.len() == 0 {
        assert(text::trimmed(s) =~= s.subrange(0, 0));
        (0, 0)
    } else if text::white_space(s[0]) {
        let t = s.skip(1);
        let (a, b) = law_trimmed_is_a_part(t);
        assert(seq![s[0]] + t =~= s);
        text::law_trim_ignores_leading(s[0], t);
        assert(t.subrange(a, b) =~= s.subrange(a + 1, b + 1));
        assert forall|i: int| 0 <= i < a + 1 implies text::white_space(#[trigger] s[i]) by {
            if i > 0 {
                assert(t[i - 1] == s[i]);
            }
        }
        assert forall|i: int| b + 1 <= i < s.len() implies text::white_space(#[trigger] s[i]) by {
            assert(t[i - 1] == s[i]);
        }
        if a < b {
            assert(t[a] == s[a + 1] && t[b - 1] == s[b]);
        }
        (a + 1, b + 1)
    } else if text::white_space(s.last()) {
        let t = s.drop_last();
        let (a, b) = law_trimmed_is_a_part(t);
        assert(t.push(s.last()) =~= s);
        text::law_trim_ignores_trailing(t, s.last());
        assert(t.subrange(a, b) =~= s.subrange(a, b));
        assert forall|i: int| 0 <= i < a implies text::white_space(#[trigger] s[i]) by {
            assert(t[i] == s[i]);
        }
        assert forall|i: int| b <= i < s.len() implies text::white_space(#[trigger] s[i]) by {
            if i < t.len() {
                assert(t[i] == s[i]);
            }
        }
        if a < b {
            assert(t[a] == s[a] && t[b - 1] == s[b - 1]);
        }
        (a, b)
    } else {
        text::law_trim_keeps(s);
        assert(s.subrange(0, s.len() as int) =~= s);
        (0, s.len() as int)
    }
}

/// A prefix is taken off exactly the texts that start with it, and nothing else of them.
pub proof fn law_prefix_comes_off(s: Seq<char>, prefix: Seq<char>, rest: Seq<char>)
    ensures
        text::stripped(prefix + rest, prefix) == Some(rest),
        text::stripped(s, prefix) == Some(rest) <==> s == prefix + rest,
        text::stripped(s, prefix) is None ==> s != prefix + rest,
{
    assert((prefix + rest).take(prefix.len() as int) =~= prefix);
    assert((prefix + rest).skip(prefix.len() as int) =~= rest);
    if text::stripped(s, prefix) == Some(rest) {
        assert(s =~= prefix + rest);
    }
}

/// No piece of a text holds the separator.
pub proof fn law_pieces_hold_no_separator(s: Seq<char>, separator: char, i: int)
    requires
        0 <= i < text::pieces(s, separator).len(),
    ensures
        !text::pieces(s, separator)[i].contains(separator),
    decreases s.len(),
{
    if s.len() > 0 {
        let before = text::pieces(s.drop_last(), separator);
        let all = text::pieces(s, separator);
        text::law_pieces_join(s.drop_last(), separator);
        if i < before.len() {
            law_pieces_hold_no_separator(s.drop_last(), separator, i);
        }
        if i == all.len() - 1 && s.last() != separator && all[i].contains(separator) {
            let k = choose|k: int| 0 <= k < all[i].len() && all[i][k] == separator;
            assert(before.last()[k] == separator);
            assert(before[i].contains(separator));
        }
    }
}

/// A text is cut at the first occurrence of a character: nothing of it is lost but
/// that one occurrence.
pub proof fn law_cut_is_at_the_first(s: Seq<char>, c: char)
    ensures
        !text::text_before(s, c).contains(c),
        s.contains(c) ==> s == text::text_before(s, c).push(c) + text::text_behind(s, c),
        !s.contains(c) ==> text::text_before(s, c) == s && text::text_behind(s, c).len() == 0,
{
    lemma_first_index(s, c);
    let k = text::first_index(s, c);
    let before = text::text_before(s, c);
    if before.contains(c) {
        let i = choose|i: int| 0 <= i < before.len() && before[i] == c;
        assert(s[i] == c);
    }
    if s.contains(c) {
        let i = choose|i: int| 0 <= i < s.len() && s[i] == c;
        assert(k < s.len());
        assert(s =~= before.push(c) + text::text_behind(s, c));
    } else {
        if k < s.len() {
            assert(s.contains(s[k]));
        }
        assert(before =~= s);
    }
}

proof fn lemma_first_index(s: Seq<char>, c: char)
    ensures
        0 <= text::first_index(s, c) <= s.len(),
        text::first_index(s, c) < s.len() ==> s[text::first_index(s, c)] == c,
        forall|i: int| 0 <= i < text::first_index(s, c) ==> #[trigger] s[i] != c,
    decreases s.len(),
{
    if s.len() > 0 && s[0] != c {
        let t = s.skip(1);
        lemma_first_index(t, c);
        assert forall|i: int| 0 <= i < text::first_index(s, c) implies #[trigger] s[i] != c by {
            if i > 0 {
                assert(t[i - 1] == s[i]);
            }
        }
    }
}

// ---------------------------------------------------------------------------
// Bytes and lists
// ---------------------------------------------------------------------------

/// In hexadecimal each byte takes two digits, first the one for its upper half.
pub proof fn law_hex_digits(data: Seq<u8>, i: int)
    requires
        0 <= i < data.len(),
    ensures
        bytes::hex_text(data).len() == 2 * data.len(),
        bytes::hex_text(data)[2 * i] == "0123456789abcdef"@[data[i] as int / 16],
        bytes::hex_text(data)[2 * i + 1] == "0123456789abcdef"@[data[i] as int % 16],
{
    reveal_strlit("0123456789abcdef");
    assert(0 <= data[i] as int / 16 < 16);
    assert((2 * i + 1) / 2 == i && (2 * i + 1) % 2 == 1);
}

/// What lists of keys and of blobs say, they say element by element.
pub proof fn law_lists_say_each(keys: Seq<[u8; 32]>, blobs: Seq<Vec<u8>>, texts: Seq<Vec<char>>)
    ensures
        bytes::keys(keys).len() == keys.len(),
        forall|i: int| 0 <= i < keys.len() ==> #[trigger] bytes::keys(keys)[i] == keys[i]@,
        bytes::blobs(blobs).len() == blobs.len(),
        forall|i: int| 0 <= i < blobs.len() ==> #[trigger] bytes::blobs(blobs)[i] == blobs[i]@,
        text::texts(texts).len() == texts.len(),
        forall|i: int| 0 <= i < texts.len() ==> #[trigger] text::texts(texts)[i] == texts[i]@,
{
}

/// What a list of values says, it says element by element.
pub proof fn law_views_say_each<T: View>(items: Seq<T>)
    ensures
        list::views(items).len() == items.len(),
        forall|i: int| 0 <= i < items.len() ==> #[trigger] list::views(items)[i] == items[i]@,
{
}

/// The error of a list is that of its first element that has one.
pub proof fn law_first_error_counts<A, B, E>(items: Seq<A>, f: spec_fn(A) -> Result<B, E>, e: E)
    requires
        list::each(items, f) == Err::<Seq<B>, E>(e),
    ensures
        exists|i: int|
            0 <= i < items.len() && #[trigger] f(items[i]) == Err::<B, E>(e) && forall|j: int|
                0 <= j < i ==> f(#[trigger] items[j]) is Ok,
    decreases items.len(),
{
    let less = items.drop_last();
    match list::each(less, f) {
        Err(x) => {
            law_first_error_counts(less, f, e);
            let i = choose|i: int|
                0 <= i < less.len() && #[trigger] f(less[i]) == Err::<B, E>(e) && forall|j: int|
                    0 <= j < i ==> f(#[trigger] less[j]) is Ok;
            assert(f(items[i]) == Err::<B, E>(e));
            assert forall|j: int| 0 <= j < i implies f(#[trigger] items[j]) is Ok by {
                assert(less[j] == items[j]);
            }
        },
        Ok(_) => {
            list::law_each_is_elementwise(less, f);
            let i = items.len() - 1;
            assert(f(items[i]) == Err::<B, E>(e));
            assert forall|j: int| 0 <= j < i implies f(#[trigger] items[j]) is Ok by {
                assert(less[j] == items[j]);
            }
        },
    }
}

} // verus!
