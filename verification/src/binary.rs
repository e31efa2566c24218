//! Little-endian integers and NUL-padded names inside byte buffers.

use vstd::prelude::*;
use vstd::utf8::*;
use vstd::string::StringSliceAdditionalSpecFns;

verus! {

/// The unsigned 16-bit little-endian integer at `s[i..i + 2]`.
pub open spec fn spec_u16_le(s: Seq<u8>, i: int) -> int {
    s[i] as int + 256 * (s[i + 1] as int)
}

/// The unsigned 32-bit little-endian integer at `s[i..i + 4]`.
pub open spec fn spec_u32_le(s: Seq<u8>, i: int) -> int {
    spec_u16_le(s, i) + 65536 * spec_u16_le(s, i + 2)
}

/// The two's-complement 16-bit little-endian integer at `s[i..i + 2]`.
pub open spec fn spec_i16_le(s: Seq<u8>, i: int) -> int {
    let u = spec_u16_le(s, i);
    if u >= 0x8000 {
        u - 0x1_0000
    } else {
        u
    }
}

/// The two's-complement 32-bit little-endian integer at `s[i..i + 4]`.
pub open spec fn spec_i32_le(s: Seq<u8>, i: int) -> int {
    let u = spec_u32_le(s, i);
    if u >= 0x8000_0000 {
        u - 0x1_0000_0000
    } else {
        u
    }
}

pub fn read_u16_le(s: &[u8], i: usize) -> (r: u16)
    requires
        i + 2 <= s@.len(),
    ensures
        r as int == spec_u16_le(s@, i as int),
{
    let lo: u16 = s[i] as u16;
    let hi: u16 = s[i + 1] as u16;
    lo + 256 * hi
}

pub fn read_u32_le(s: &[u8], i: usize) -> (r: u32)
    requires
        i + 4 <= s@.len(),
    ensures
        r as int == spec_u32_le(s@, i as int),
{
    let len = s.len();
    let lo: u32 = read_u16_le(s, i) as u32;
    let hi: u32 = read_u16_le(s, i + 2) as u32;
    lo + 65536 * hi
}

pub fn read_i16_le(s: &[u8], i: usize) -> (r: i16)
    requires
        i + 2 <= s@.len(),
    ensures
        r as int == spec_i16_le(s@, i as int),
{
    let u: u16 = read_u16_le(s, i);
    if u >= 0x8000 {
        let v: i32 = u as i32 - 0x1_0000;
        v as i16
    } else {
        u as i16
    }
}

pub fn read_i32_le(s: &[u8], i: usize) -> (r: i32)
    requires
        i + 4 <= s@.len(),
    ensures
        r as int == spec_i32_le(s@, i as int),
{
    let u: u32 = read_u32_le(s, i);
    if u >= 0x8000_0000 {
        let v: i64 = u as i64 - 0x1_0000_0000;
        v as i32
    } else {
        u as i32
    }
}

/// `n` is where the name stored in the NUL-padded field `s` ends: the
/// index of the first zero byte, or the field's length if it has none.
pub open spec fn is_name_end(s: Seq<u8>, n: int) -> bool {
    &&& 0 <= n <= s.len()
    &&& forall|i: int| 0 <= i < n ==> s[i] != 0
    &&& n < s.len() ==> s[n] == 0
}

/// The name stored in a NUL-padded field: its bytes before the first zero.
pub open spec fn name_part(s: Seq<u8>) -> Seq<u8> {
    s.take(choose|n: int| is_name_end(s, n))
}

/// A field has one end of name.
pub proof fn lemma_name_end_unique(s: Seq<u8>, a: int, b: int)
    requires
        is_name_end(s, a),
        is_name_end(s, b),
    ensures
        a == b,
{
    if a < b {
        assert(s[a] == 0);
    } else if b < a {
        assert(s[b] == 0);
    }
}

/// The name of a field is its bytes up to its end of name.
pub proof fn lemma_name_part(s: Seq<u8>, n: int)
    requires
        is_name_end(s, n),
    ensures
        name_part(s) == s.take(n),
{
    let m = choose|m: int| is_name_end(s, m);
    lemma_name_end_unique(s, m, n);
}

/// Finds where the name in a NUL-padded field ends.
pub fn name_end(s: &[u8]) -> (n: usize)
    ensures
        is_name_end(s@, n as int),
        name_part(s@) == s@.take(n as int),
{
    let mut i: usize = 0;
    while i < s.len()
        invariant
            0 <= i <= s@.len(),
            forall|j: int| 0 <= j < i ==> s@[j] != 0,
        decreases s@.len() - i,
    {
        if s[i] == 0 {
            proof {
                lemma_name_part(s@, i as int);
            }
            return i;
        }
        i = i + 1;
    }
    proof {
        lemma_name_part(s@, i as int);
    }
    i
}

/// Byte-wise equality of two slices.
pub fn bytes_eq(a: &[u8], b: &[u8]) -> (r: bool)
    ensures
        r == (a@ == b@),
{
    if a.len() != b.len() {
        return false;
    }
    let mut i: usize = 0;
    while i < a.len()
        invariant
            a@.len() == b@.len(),
            0 <= i <= a@.len(),
            forall|j: int| 0 <= j < i ==> a@[j] == b@[j],
        decreases a@.len() - i,
    {
        if a[i] != b[i] {
            return false;
        }
        i = i + 1;
    }
    assert(a@ =~= b@);
    true
}

/// Calls `std::str::from_utf8`. Trusted: its documentation states that it
/// succeeds exactly when the bytes are well-formed UTF-8, and that the
/// string it returns consists of those very bytes.
#[verifier::external_body]
pub fn str_from_utf8(v: &[u8]) -> (res: Option<&str>)
    ensures
        res is Some <==> valid_utf8(v@),
        res matches Some(s) ==> s.spec_bytes() == v@,
{
    std::str::from_utf8(v).ok()
}


/// Equality of two strings, decided on their UTF-8 bytes.
pub fn str_eq(a: &str, b: &str) -> (r: bool)
    ensures
        r == (a@ == b@),
{
    let r = bytes_eq(a.as_bytes(), b.as_bytes());
    proof {
        encode_utf8_decode_utf8(a@);
        encode_utf8_decode_utf8(b@);
    }
    r
}

/// The characters `str::to_uppercase` gives for the characters `s`.
pub uninterp spec fn spec_to_uppercase(s: Seq<char>) -> Seq<char>;

/// The uppercase form of an ASCII character: `a` to `z` become `A` to `Z`,
/// every other character stays.
pub open spec fn ascii_upper(c: char) -> char {
    if 'a' <= c && c <= 'z' {
        ((c as int) - 32) as char
    } else {
        c
    }
}

/// Calls `str::to_uppercase`, which maps each character to its Unicode
/// uppercase form. Trusted: its result is named, as a function of the
/// string's characters alone; of a string of ASCII characters it states
/// what the Unicode mapping gives them (and the documentation's example
/// shows): each lowercase letter made uppercase, each other character kept.
/// Beyond ASCII nothing more is stated.
#[verifier::external_body]
pub fn str_to_uppercase(s: &str) -> (r: String)
    ensures
        r@ == spec_to_uppercase(s@),
        (forall|i: int| 0 <= i < s@.len() ==> (#[trigger] s@[i] as int) < 128) ==> r@ == s@.map_values(
            |c: char| ascii_upper(c),
        ),
{
    s.to_uppercase()
}


/// The string whose UTF-8 encoding is `v`, if `v` is well-formed UTF-8.
pub fn utf8_to_string(v: &[u8]) -> (res: Option<String>)
    ensures
        res is Some <==> valid_utf8(v@),
        res matches Some(s) ==> s@ == decode_utf8(v@),
{
    match str_from_utf8(v) {
        Some(s) => {
            proof {
                encode_utf8_decode_utf8(s@);
            }
            Some(s.to_owned())
        },
        None => None,
    }
}

} // verus!
