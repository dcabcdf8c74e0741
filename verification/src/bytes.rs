//! Bytes: hexadecimal text, keys and hashes of 32 bytes, variable-length integers.
use monero_oxide::io::VarInt;
use vstd::prelude::*;
use vstd::utf8::*;

use crate::text;

verus! {

// ---------------------------------------------------------------------------
// Hexadecimal
// ---------------------------------------------------------------------------

/// Why a text is not the hexadecimal form of some bytes.
#[derive(Clone, Copy, Debug, PartialEq, Eq, Structural)]
pub enum HexError {
    /// The number of bytes of the text is odd.
    OddLength,
    /// The byte `c` at the position `index` is no hexadecimal digit.
    InvalidHexCharacter { c: char, index: usize },
    /// A length other than the one asked for; never the answer where any length will do.
    InvalidStringLength,
}

/// The lower-case hexadecimal digit of a number below 16.
pub open spec fn hex_digit(n: int) -> char {
    if n < 10 {
        (48 + n) as char
    } else {
        (87 + n) as char
    }
}

/// Bytes in lower-case hexadecimal: two digits for each byte, the high one first.
pub open spec fn hex_text(bytes: Seq<u8>) -> Seq<char> {
    Seq::new(
        2 * bytes.len(),
        |i: int|
            hex_digit(
                if i % 2 == 0 {
                    bytes[i / 2] as int / 16
                } else {
                    bytes[i / 2] as int % 16
                },
            ),
    )
}

/// The value of a hexadecimal digit of either case, given as an ASCII byte.
pub open spec fn hex_value(b: u8) -> Option<int> {
    if 48 <= b <= 57 {
        Some(b - 48)
    } else if 65 <= b <= 70 {
        Some(b - 55)
    } else if 97 <= b <= 102 {
        Some(b - 87)
    } else {
        None
    }
}

/// The position of the first byte that is no hexadecimal digit, or the length.
pub open spec fn first_non_hex(data: Seq<u8>) -> int
    decreases data.len(),
{
    if data.len() == 0 || hex_value(data[0]) is None {
        0
    } else {
        1 + first_non_hex(data.skip(1))
    }
}

/// The bytes that a text in hexadecimal stands for, or why it stands for none.
pub open spec fn hex_decoded(data: Seq<u8>) -> Result<Seq<u8>, HexError> {
    if data.len() % 2 != 0 {
        Err(HexError::OddLength)
    } else if first_non_hex(data) < data.len() {
        Err(
            HexError::InvalidHexCharacter {
                c: data[first_non_hex(data)] as char,
                index: first_non_hex(data) as usize,
            },
        )
    } else {
        Ok(
            Seq::new(
                data.len() / 2,
                |i: int| (16 * hex_value(data[2 * i])->0 + hex_value(data[2 * i + 1])->0) as u8,
            ),
        )
    }
}

/// What [`hex_decoded`] says of the UTF-8 form of a text.
pub open spec fn hex_decoded_text(s: Seq<char>) -> Result<Seq<u8>, HexError> {
    hex_decoded(encode_utf8(s))
}

/// `hex::encode`: two lower-case digits for each byte.
#[verifier::external_body]
pub(crate) fn hex_encode(data: &[u8]) -> (r: String)
    ensures
        r@ == hex_text(data@),
{
    hex::encode(data)
}

/// `hex::decode`: an odd length is refused first, then the first byte that is
/// no digit; otherwise each pair of digits gives one byte.
#[verifier::external_body]
pub(crate) fn hex_decode(data: &[u8]) -> (r: Result<Vec<u8>, HexError>)
    ensures
        match r {
            Ok(bytes) => hex_decoded(data@) == Ok::<Seq<u8>, HexError>(bytes@),
            Err(e) => hex_decoded(data@) == Err::<Seq<u8>, HexError>(e),
        },
{
    hex::decode(data).map_err(|e| match e {
        hex::FromHexError::OddLength => HexError::OddLength,
        hex::FromHexError::InvalidHexCharacter { c, index } => {
            HexError::InvalidHexCharacter { c, index }
        },
        hex::FromHexError::InvalidStringLength => HexError::InvalidStringLength,
    })
}

/// A character within quotes, escaped where it needs it.
pub uninterp spec fn quoted_char(c: char) -> Seq<char>;

/// What is said of a character at a place that is no hexadecimal digit.
pub open spec fn bad_digit_text(c: char, index: usize) -> Seq<char> {
    "Invalid character "@ + quoted_char(c) + " at position "@ + text::decimal(index as nat)
}

/// `hex::FromHexError::to_string` for a character that is no digit: the character
/// as `char`'s `Debug` shows it, and its place in decimal.
#[verifier::external_body]
fn say_bad_digit(c: char, index: usize) -> (r: String)
    ensures
        r@ == "Invalid character "@ + quoted_char(c) + " at position "@ + text::decimal(
            index as nat,
        ),
{
    hex::FromHexError::InvalidHexCharacter { c, index }.to_string()
}

impl HexError {
    /// This error in words.
    pub open spec fn words(self) -> Seq<char> {
        match self {
            HexError::OddLength => "Odd number of digits"@,
            HexError::InvalidHexCharacter { c, index } => bad_digit_text(c, index),
            HexError::InvalidStringLength => "Invalid string length"@,
        }
    }

    /// Puts this error in words.
    pub fn text(&self) -> (r: String)
        ensures
            r@ == self.words(),
    {
        match *self {
            HexError::OddLength => "Odd number of digits".to_owned(),
            HexError::InvalidHexCharacter { c, index } => say_bad_digit(c, index),
            HexError::InvalidStringLength => "Invalid string length".to_owned(),
        }
    }
}

/// Reads a text in hexadecimal.
pub fn decode_hex(text: &str) -> (r: Result<Vec<u8>, HexError>)
    ensures
        match r {
            Ok(bytes) => hex_decoded_text(text@) == Ok::<Seq<u8>, HexError>(bytes@),
            Err(e) => hex_decoded_text(text@) == Err::<Seq<u8>, HexError>(e),
        },
{
    hex_decode(text.as_bytes())
}

/// Writes bytes in hexadecimal.
pub fn encode_hex(data: &[u8]) -> (r: String)
    ensures
        r@ == hex_text(data@),
{
    hex_encode(data)
}

// ---------------------------------------------------------------------------
// Keys and hashes
// ---------------------------------------------------------------------------

/// The bytes of each key or hash of a list.
pub open spec fn keys(v: Seq<[u8; 32]>) -> Seq<Seq<u8>> {
    v.map_values(|k: [u8; 32]| k@)
}

/// The bytes of each blob of a list.
pub open spec fn blobs(v: Seq<Vec<u8>>) -> Seq<Seq<u8>> {
    v.map_values(|b: Vec<u8>| b@)
}

/// The bytes as a key or hash, where there are exactly 32.
pub fn bytes_32(bytes: &[u8]) -> (r: Option<[u8; 32]>)
    ensures
        r is Some <==> bytes@.len() == 32,
        r matches Some(k) ==> k@ == bytes@,
{
    if bytes.len() != 32 {
        return None;
    }
    let mut out: [u8; 32] = [0u8; 32];
    let mut i: usize = 0;
    while i < 32
        invariant
            i <= 32,
            bytes@.len() == 32,
            forall|j: int| 0 <= j < i ==> out@[j] == bytes@[j],
        decreases 32 - i,
    {
        out[i] = bytes[i];
        i += 1;
    }
    assert(out@ =~= bytes@);
    Some(out)
}

/// Whether two keys or hashes are the same.
pub fn same_key(a: &[u8; 32], b: &[u8; 32]) -> (r: bool)
    ensures
        r == (a@ == b@),
{
    let mut i: usize = 0;
    while i < 32
        invariant
            i <= 32,
            forall|j: int| 0 <= j < i ==> a@[j] == b@[j],
        decreases 32 - i,
    {
        if a[i] != b[i] {
            assert(a@[i as int] != b@[i as int]);
            return false;
        }
        i += 1;
    }
    assert(a@ =~= b@);
    true
}

// ---------------------------------------------------------------------------
// Variable-length integers
// ---------------------------------------------------------------------------

/// A number in groups of seven bits, the lowest group first. Every byte but the
/// last has its top bit set.
pub open spec fn varint_bytes(n: nat) -> Seq<u8>
    decreases n,
{
    if n < 128 {
        seq![n as u8]
    } else {
        seq![(128 + n % 128) as u8] + varint_bytes(n / 128)
    }
}

/// `monero_oxide::io::VarInt::write` for `u64` into a vector: groups of seven
/// bits, the lowest first, the top bit set on all but the last.
#[verifier::external_body]
fn write_varint(n: u64) -> (r: Vec<u8>)
    ensures
        r@ == varint_bytes(n as nat),
{
    let mut out = Vec::with_capacity(9);
    VarInt::write(&n, &mut out).expect("varint to Vec cannot fail");
    out
}

/// VarInt-encodes a number, as the derivation of a one-time key needs it.
pub fn varint(n: u64) -> (r: Vec<u8>)
    ensures
        r@ == varint_bytes(n as nat),
{
    write_varint(n)
}

/// The number that a variable-length integer at the front of some bytes denotes.
pub open spec fn varint_value(bytes: Seq<u8>) -> nat
    decreases bytes.len(),
{
    if bytes.len() == 0 {
        0
    } else if bytes[0] < 128 {
        bytes[0] as nat
    } else {
        (bytes[0] - 128 + 128 * varint_value(bytes.skip(1))) as nat
    }
}

// ---------------------------------------------------------------------------
// Laws
// ---------------------------------------------------------------------------

proof fn lemma_hex_digits(data: Seq<u8>)
    requires
        forall|i: int| 0 <= i < data.len() ==> hex_value(#[trigger] data[i]) is Some,
    ensures
        first_non_hex(data) == data.len(),
    decreases data.len(),
{
    if data.len() > 0 {
        assert(hex_value(data[0]) is Some);
        assert forall|i: int| 0 <= i < data.skip(1).len() implies hex_value(
            #[trigger] data.skip(1)[i],
        ) is Some by {
            assert(data.skip(1)[i] == data[i + 1]);
        }
        lemma_hex_digits(data.skip(1));
    }
}

/// Reading back bytes that were written in hexadecimal gives those bytes.
pub proof fn law_hex_reads_back(bytes: Seq<u8>)
    ensures
        hex_decoded_text(hex_text(bytes)) == Ok::<Seq<u8>, HexError>(bytes),
{
    let s = hex_text(bytes);
    assert forall|i: int| 0 <= i < s.len() implies (#[trigger] s[i] as u32) < 0x80 by {
        assert(0 <= bytes[i / 2] as int / 16 < 16);
    }
    assert(is_ascii_chars(s));
    is_ascii_chars_encode_utf8(s);
    let data = encode_utf8(s);
    assert(data =~= Seq::new(s.len(), |i: int| s[i] as u8));
    assert forall|i: int| 0 <= i < data.len() implies hex_value(#[trigger] data[i]) == Some(
        if i % 2 == 0 {
            bytes[i / 2] as int / 16
        } else {
            bytes[i / 2] as int % 16
        },
    ) by {
        assert(data[i] == s[i] as u8);
        assert(0 <= bytes[i / 2] as int / 16 < 16);
        assert(0 <= bytes[i / 2] as int % 16 < 16);
    }
    lemma_hex_digits(data);
    let out = hex_decoded(data)->Ok_0;
    assert forall|i: int| 0 <= i < bytes.len() implies #[trigger] out[i] == bytes[i] by {
        assert(hex_value(data[2 * i]) == Some(bytes[i] as int / 16));
        assert(hex_value(data[2 * i + 1]) == Some(bytes[i] as int % 16));
    }
    assert(out =~= bytes);
}

/// Two lists of bytes with the same hexadecimal form are the same.
pub proof fn law_hex_distinguishes(a: Seq<u8>, b: Seq<u8>)
    requires
        hex_text(a) == hex_text(b),
    ensures
        a == b,
{
    law_hex_reads_back(a);
    law_hex_reads_back(b);
}

/// A variable-length integer denotes the number that it was made from, whatever follows it.
pub proof fn law_varint_reads_back(n: nat, rest: Seq<u8>)
    ensures
        varint_value(varint_bytes(n) + rest) == n,
    decreases n,
{
    let all = varint_bytes(n) + rest;
    if n >= 128 {
        law_varint_reads_back(n / 128, rest);
        assert(all.skip(1) =~= varint_bytes(n / 128) + rest);
    }
}

/// Of a variable-length integer the last byte, and no other, has its top bit clear.
pub proof fn law_varint_ends_once(n: nat)
    ensures
        varint_bytes(n).len() > 0,
        forall|i: int|
            0 <= i < varint_bytes(n).len() ==> ((#[trigger] varint_bytes(n)[i] < 128) <==> i
                == varint_bytes(n).len() - 1),
    decreases n,
{
    if n >= 128 {
        law_varint_ends_once(n / 128);
        assert forall|i: int| 0 <= i < varint_bytes(n).len() implies ((
        #[trigger] varint_bytes(n)[i] < 128) <==> i == varint_bytes(n).len() - 1) by {
            if i > 0 {
                assert(varint_bytes(n)[i] == varint_bytes(n / 128)[i - 1]);
            }
        }
    }
}

/// The variable-length integer of a 64-bit number has at most ten bytes.
pub proof fn law_varint_fits_ten_bytes(n: u64)
    ensures
        varint_bytes(n as nat).len() <= 10,
{
    reveal_with_fuel(varint_bytes, 11);
}

} // verus!
