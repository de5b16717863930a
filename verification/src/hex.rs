//! Hexadecimal text for byte strings: lower-case encoding, and the decoding
//! that the log uses for hashes, signatures and keys.

use vstd::prelude::*;
use vstd::utf8::*;

use crate::text::push_char;

verus! {

broadcast use vstd::utf8::is_ascii_chars_encode_utf8;

// ---- encoding ---------------------------------------------------------------

/// The lower-case hexadecimal digit for `n` (`0 <= n < 16`).
pub open spec fn hex_digit(n: int) -> char {
    if n < 10 {
        (n + 48) as char
    } else {
        (n + 87) as char
    }
}

/// Two lower-case hexadecimal digits per byte, high nibble first.
pub open spec fn hex_text(b: Seq<u8>) -> Seq<char> {
    Seq::new(
        2 * b.len(),
        |i: int|
            if i % 2 == 0 {
                hex_digit(b[i / 2] as int / 16)
            } else {
                hex_digit(b[i / 2] as int % 16)
            },
    )
}

fn digit_char(n: u8) -> (c: char)
    requires
        n < 16,
    ensures
        c == hex_digit(n as int),
{
    if n < 10 {
        (n + 48) as char
    } else {
        (n + 87) as char
    }
}

/// Lower-case hexadecimal text of `b`: two digits per byte.
pub fn hex_encode(b: &[u8]) -> (s: String)
    ensures
        s@ == hex_text(b@),
{
    let mut s = String::new();
    let n = b.len();
    for k in 0..n
        invariant
            n == b@.len(),
            s@ == hex_text(b@.take(k as int)),
    {
        let x = b[k];
        push_char(&mut s, digit_char(x / 16));
        push_char(&mut s, digit_char(x % 16));
        assert(s@ =~= hex_text(b@.take(k + 1)));
    }
    assert(b@.take(n as int) =~= b@);
    s
}

// ---- decoding ---------------------------------------------------------------

/// The value of one hexadecimal digit (either case), given as a byte.
pub open spec fn digit_value(c: u8) -> Option<u8> {
    if 48 <= c <= 57 {
        Some((c - 48) as u8)
    } else if 97 <= c <= 102 {
        Some((c - 87) as u8)
    } else if 65 <= c <= 70 {
        Some((c - 55) as u8)
    } else {
        None
    }
}

/// The byte that two hexadecimal digits stand for, high digit first;
/// `None` unless both are hexadecimal digits.
pub open spec fn pair_value(a: u8, b: u8) -> Option<u8> {
    match (digit_value(a), digit_value(b)) {
        (Some(x), Some(y)) => Some((16 * x + y) as u8),
        _ => None,
    }
}

/// The `k`-th pair of bytes of `b` decodes.
pub open spec fn pair_decodes(b: Seq<u8>, k: int) -> bool {
    pair_value(b[2 * k], b[2 * k + 1]) is Some
}

/// Decoding of the UTF-8 bytes `b` of a text: pairs of bytes, each decoded on
/// its own; `None` for an odd length or a pair that does not decode.
pub open spec fn unhex_bytes(b: Seq<u8>) -> Option<Seq<u8>> {
    if b.len() % 2 != 0 {
        None
    } else if forall|k: int| 0 <= k < b.len() / 2 ==> #[trigger] pair_decodes(b, k) {
        Some(Seq::new(b.len() / 2, |k: int| pair_value(b[2 * k], b[2 * k + 1])->0))
    } else {
        None
    }
}

/// Decoding of a text.
pub open spec fn unhex_text(s: Seq<char>) -> Option<Seq<u8>> {
    unhex_bytes(encode_utf8(s))
}

/// Decoding of a text to exactly `n` bytes.
pub open spec fn unhex_text_n(s: Seq<char>, n: nat) -> Option<Seq<u8>> {
    match unhex_text(s) {
        Some(v) => if v.len() == n {
            Some(v)
        } else {
            None
        },
        None => None,
    }
}

fn digit_of(c: u8) -> (r: Option<u8>)
    ensures
        r == digit_value(c),
{
    if 48 <= c && c <= 57 {
        Some(c - 48)
    } else if 97 <= c && c <= 102 {
        Some(c - 87)
    } else if 65 <= c && c <= 70 {
        Some(c - 55)
    } else {
        None
    }
}

fn pair_of(a: u8, b: u8) -> (r: Option<u8>)
    ensures
        r == pair_value(a, b),
{
    match (digit_of(a), digit_of(b)) {
        (Some(x), Some(y)) => Some(16 * x + y),
        _ => None,
    }
}

/// Bytes of a hexadecimal text, two digits (either case) per byte; `None` for
/// an odd length or any pair that is not two hexadecimal digits.
pub fn unhex(s: &str) -> (r: Option<Vec<u8>>)
    ensures
        r is Some <==> unhex_text(s@) is Some,
        r matches Some(v) ==> v@ == unhex_text(s@)->0,
{
    let b = s.as_bytes();
    let n = b.len();
    proof {
        assert(b@ == encode_utf8(s@));
    }
    if n % 2 != 0 {
        return None;
    }
    let half = n / 2;
    let mut out: Vec<u8> = Vec::new();
    let mut k: usize = 0;
    while k < half
        invariant
            b@ == encode_utf8(s@),
            n == b@.len(),
            n % 2 == 0,
            half == n / 2,
            k <= half,
            out@.len() == k,
            forall|j: int| 0 <= j < k ==> #[trigger] pair_decodes(b@, j),
            forall|j: int| 0 <= j < k ==> out@[j] == pair_value(b@[2 * j], b@[2 * j + 1])->0,
        decreases half - k,
    {
        match pair_of(b[2 * k], b[2 * k + 1]) {
            Some(x) => {
                out.push(x);
            },
            None => {
                assert(!pair_decodes(b@, k as int));
                return None;
            },
        }
        k = k + 1;
    }
    assert(out@ =~= unhex_bytes(b@)->0);
    Some(out)
}

fn to_array32(v: &Vec<u8>) -> (a: [u8; 32])
    requires
        v@.len() == 32,
    ensures
        a@ == v@,
{
    let mut a = [0u8; 32];
    for i in 0..32
        invariant
            v@.len() == 32,
            forall|j: int| 0 <= j < i ==> a@[j] == v@[j],
    {
        a[i] = v[i];
    }
    assert(a@ =~= v@);
    a
}

fn to_array64(v: &Vec<u8>) -> (a: [u8; 64])
    requires
        v@.len() == 64,
    ensures
        a@ == v@,
{
    let mut a = [0u8; 64];
    for i in 0..64
        invariant
            v@.len() == 64,
            forall|j: int| 0 <= j < i ==> a@[j] == v@[j],
    {
        a[i] = v[i];
    }
    assert(a@ =~= v@);
    a
}

/// A 32-byte value written in hexadecimal, such as a hash or a public key.
pub fn hex32(s: &str) -> (r: Option<[u8; 32]>)
    ensures
        r is Some <==> unhex_text_n(s@, 32) is Some,
        r matches Some(a) ==> a@ == unhex_text_n(s@, 32)->0,
{
    match unhex(s) {
        Some(v) => if v.len() == 32 {
            Some(to_array32(&v))
        } else {
            None
        },
        None => None,
    }
}

/// A 64-byte value written in hexadecimal, such as a signature.
pub fn hex64(s: &str) -> (r: Option<[u8; 64]>)
    ensures
        r is Some <==> unhex_text_n(s@, 64) is Some,
        r matches Some(a) ==> a@ == unhex_text_n(s@, 64)->0,
{
    match unhex(s) {
        Some(v) => if v.len() == 64 {
            Some(to_array64(&v))
        } else {
            None
        },
        None => None,
    }
}

} // verus!
