//! Low-level wire primitives shared by every event encoding: fixed-width
//! decimal numbers, length-prefixed byte strings, and UTF-8 text fields.
//!
//! Every number on the wire is written as exactly ten ASCII digits
//! (zero-padded), so a parser always knows how many bytes to consume.
//! A text field is written as its byte length followed by its UTF-8 bytes.
use vstd::prelude::*;

verus! {

use vstd::utf8::{encode_utf8, decode_utf8, valid_utf8};

/// Width, in digits, of every number on the wire.
pub const NUM_WIDTH: usize = 10;

/// 10^w.
pub open spec fn pow10(w: nat) -> nat
    decreases w,
{
    if w == 0 {
        1
    } else {
        10 * pow10((w - 1) as nat)
    }
}

/// The `w` least significant decimal digits of `n`, most significant first,
/// as ASCII bytes.
pub open spec fn dec_enc(n: nat, w: nat) -> Seq<u8>
    decreases w,
{
    if w == 0 {
        Seq::empty()
    } else {
        dec_enc(n / 10, (w - 1) as nat) + seq![(48 + n % 10) as u8]
    }
}

/// True when every byte of `s` is an ASCII digit.
pub open spec fn is_digits(s: Seq<u8>) -> bool {
    forall|i: int| 0 <= i < s.len() ==> 48 <= #[trigger] s[i] <= 57
}

/// The number denoted by the digit string `s` (most significant digit first).
pub open spec fn dec_val(s: Seq<u8>) -> int
    decreases s.len(),
{
    if s.len() == 0 {
        0
    } else {
        dec_val(s.drop_last()) * 10 + s.last() - 48
    }
}

pub proof fn lemma_dec_enc_len(n: nat, w: nat)
    ensures
        dec_enc(n, w).len() == w,
        is_digits(dec_enc(n, w)),
    decreases w,
{
    if w > 0 {
        lemma_dec_enc_len(n / 10, (w - 1) as nat);
    }
}

/// Writing a number below 10^w in `w` digits and reading it back returns it.
pub proof fn lemma_dec_round_trip(n: nat, w: nat)
    requires
        n < pow10(w),
    ensures
        dec_val(dec_enc(n, w)) == n,
    decreases w,
{
    if w > 0 {
        let head = dec_enc(n / 10, (w - 1) as nat);
        let s = dec_enc(n, w);
        lemma_dec_enc_len(n / 10, (w - 1) as nat);
        assert(s.drop_last() =~= head);
        assert(n / 10 < pow10((w - 1) as nat)) by {
            assert(pow10(w) == 10 * pow10((w - 1) as nat));
        }
        lemma_dec_round_trip(n / 10, (w - 1) as nat);
    }
}

/// Parses a ten-digit number at offset `i`; the value must fit in a `u32`.
pub open spec fn sp_num(s: Seq<u8>, i: int) -> Option<(u32, int)> {
    if 0 <= i && i + NUM_WIDTH <= s.len() && is_digits(s.subrange(i, i + NUM_WIDTH as int))
        && dec_val(s.subrange(i, i + NUM_WIDTH as int)) <= u32::MAX {
        Some((dec_val(s.subrange(i, i + NUM_WIDTH as int)) as u32, i + NUM_WIDTH as int))
    } else {
        None
    }
}

/// A ten-digit number parses back to what was encoded, wherever it stands.
pub proof fn lemma_sp_num_enc(s: Seq<u8>, i: int, n: u32)
    requires
        0 <= i,
        i + NUM_WIDTH <= s.len(),
        s.subrange(i, i + NUM_WIDTH as int) == dec_enc(n as nat, NUM_WIDTH as nat),
    ensures
        sp_num(s, i) == Some((n, i + NUM_WIDTH as int)),
{
    lemma_dec_enc_len(n as nat, NUM_WIDTH as nat);
    lemma_pow10_width();
    lemma_dec_round_trip(n as nat, NUM_WIDTH as nat);
}

proof fn lemma_pow10_width()
    ensures
        pow10(NUM_WIDTH as nat) == 10000000000,
{
    reveal_with_fuel(pow10, 11);
}

/// A length-prefixed byte string: ten digits of length, then the bytes.
pub open spec fn lp_enc(b: Seq<u8>) -> Seq<u8> {
    dec_enc(b.len(), NUM_WIDTH as nat) + b
}

/// Parses a length-prefixed byte string at offset `i`.
pub open spec fn sp_bytes(s: Seq<u8>, i: int) -> Option<(Seq<u8>, int)> {
    match sp_num(s, i) {
        Some((n, j)) => if j + n <= s.len() {
            Some((s.subrange(j, j + n as int), j + n as int))
        } else {
            None
        },
        None => None,
    }
}

/// A length-prefixed byte string parses back to what was encoded.
pub proof fn lemma_sp_bytes_enc(s: Seq<u8>, i: int, b: Seq<u8>)
    requires
        0 <= i,
        b.len() <= u32::MAX,
        i + NUM_WIDTH + b.len() <= s.len(),
        s.subrange(i, i + NUM_WIDTH + b.len()) == lp_enc(b),
    ensures
        sp_bytes(s, i) == Some((b, i + NUM_WIDTH + b.len())),
{
    let w = NUM_WIDTH as int;
    lemma_dec_enc_len(b.len(), NUM_WIDTH as nat);
    assert(s.subrange(i, i + w) =~= s.subrange(i, i + w + b.len()).subrange(0, w));
    assert(s.subrange(i, i + w) =~= dec_enc(b.len() as nat, NUM_WIDTH as nat));
    lemma_sp_num_enc(s, i, b.len() as u32);
    assert(s.subrange(i + w, i + w + b.len()) =~= s.subrange(i, i + w + b.len()).subrange(
        w,
        w + b.len(),
    ));
    assert(s.subrange(i + w, i + w + b.len()) =~= b);
}

/// A text field: the UTF-8 bytes of the string, length-prefixed.
pub open spec fn str_enc(cs: Seq<char>) -> Seq<u8> {
    lp_enc(encode_utf8(cs))
}

pub proof fn lemma_str_enc_len(cs: Seq<char>)
    ensures
        str_enc(cs).len() == NUM_WIDTH + encode_utf8(cs).len(),
{
    lemma_dec_enc_len(encode_utf8(cs).len(), NUM_WIDTH as nat);
}

/// Parses a text field at offset `i`: its bytes must be valid UTF-8.
pub open spec fn sp_str(s: Seq<u8>, i: int) -> Option<(Seq<char>, int)> {
    match sp_bytes(s, i) {
        Some((b, j)) => if valid_utf8(b) {
            Some((decode_utf8(b), j))
        } else {
            None
        },
        None => None,
    }
}

/// A text field parses back to the characters that were encoded.
pub proof fn lemma_sp_str_enc(s: Seq<u8>, i: int, cs: Seq<char>)
    requires
        0 <= i,
        encode_utf8(cs).len() <= u32::MAX,
        i + NUM_WIDTH + encode_utf8(cs).len() <= s.len(),
        s.subrange(i, i + NUM_WIDTH + encode_utf8(cs).len()) == str_enc(cs),
    ensures
        sp_str(s, i) == Some((cs, i + NUM_WIDTH + encode_utf8(cs).len())),
{
    broadcast use vstd::utf8::encode_utf8_valid_utf8, vstd::utf8::encode_utf8_decode_utf8;

    lemma_sp_bytes_enc(s, i, encode_utf8(cs));
}

/// Appends the `w` least significant decimal digits of `n` to `out`.
pub fn push_dec(out: &mut Vec<u8>, n: u32, w: usize)
    ensures
        final(out)@ == old(out)@ + dec_enc(n as nat, w as nat),
    decreases w,
{
    if w == 0 {
        assert(final(out)@ =~= old(out)@ + dec_enc(n as nat, 0));
    } else {
        push_dec(out, n / 10, w - 1);
        out.push(48 + (n % 10) as u8);
        assert(final(out)@ =~= old(out)@ + dec_enc(n as nat, w as nat));
    }
}

/// Appends a number to `out` in the wire's ten-digit form.
pub fn push_num(out: &mut Vec<u8>, n: u32)
    ensures
        final(out)@ == old(out)@ + dec_enc(n as nat, NUM_WIDTH as nat),
{
    push_dec(out, n, NUM_WIDTH);
}

/// Reads a ten-digit number at offset `i`, as `sp_num` describes.
pub fn parse_num(s: &[u8], i: usize) -> (r: Option<(u32, usize)>)
    ensures
        match r {
            Some((n, j)) => sp_num(s@, i as int) == Some((n, j as int)) && i < j <= s@.len(),
            None => sp_num(s@, i as int) is None,
        },
{
    if s.len() < NUM_WIDTH || i > s.len() - NUM_WIDTH {
        return None;
    }
    let ghost digits = s@.subrange(i as int, i + NUM_WIDTH as int);
    let n = s.len();
    let mut val: u64 = 0;
    let mut k: usize = 0;
    while k < NUM_WIDTH
        invariant
            0 <= k <= NUM_WIDTH,
            n == s@.len(),
            i + NUM_WIDTH <= n,
            digits == s@.subrange(i as int, i + NUM_WIDTH as int),
            is_digits(digits.subrange(0, k as int)),
            val == dec_val(digits.subrange(0, k as int)),
            val < pow10(k as nat),
        decreases NUM_WIDTH - k,
    {
        let b = s[i + k];
        if b < 48 || b > 57 {
            assert(digits[k as int] == b);
            return None;
        }
        assert(pow10((k + 1) as nat) == 10 * pow10(k as nat));
        proof {
            lemma_pow10_width();
            lemma_pow10_increases((k + 1) as nat, NUM_WIDTH as nat);
        }
        val = val * 10 + (b - 48) as u64;
        assert(digits.subrange(0, k + 1).drop_last() =~= digits.subrange(0, k as int));
        k = k + 1;
    }
    assert(digits.subrange(0, NUM_WIDTH as int) =~= digits);
    if val > u32::MAX as u64 {
        return None;
    }
    Some((val as u32, i + NUM_WIDTH))
}

proof fn lemma_pow10_increases(a: nat, b: nat)
    requires
        a <= b,
    ensures
        pow10(a) <= pow10(b),
    decreases b,
{
    if a < b {
        lemma_pow10_increases(a, (b - 1) as nat);
    }
}

/// Reads a length-prefixed byte string at offset `i`, as `sp_bytes` describes.
pub fn parse_bytes_field(s: &[u8], i: usize) -> (r: Option<(Vec<u8>, usize)>)
    ensures
        match r {
            Some((b, j)) => sp_bytes(s@, i as int) == Some((b@, j as int)) && i < j <= s@.len(),
            None => sp_bytes(s@, i as int) is None,
        },
{
    match parse_num(s, i) {
        Some((n, j)) => {
            if n as usize <= s.len() - j {
                let sub = vstd::slice::slice_subrange(s, j, j + n as usize);
                let v = vstd::slice::slice_to_vec(sub);
                Some((v, j + n as usize))
            } else {
                None
            }
        },
        None => None,
    }
}

/// Relies on `String::from_utf8`: it returns `Ok` exactly when the bytes are
/// a valid UTF-8 encoding, and the returned string is made of those bytes.
#[verifier::external_body]
fn vec_to_string(v: Vec<u8>) -> (r: Option<String>)
    ensures
        r is Some <==> valid_utf8(v@),
        r matches Some(s) ==> encode_utf8(s@) == v@,
{
    String::from_utf8(v).ok()
}

/// Reads a text field at offset `i`, as `sp_str` describes.
pub fn parse_str_field(s: &[u8], i: usize) -> (r: Option<(String, usize)>)
    ensures
        match r {
            Some((t, j)) => sp_str(s@, i as int) == Some((t@, j as int)) && i < j <= s@.len(),
            None => sp_str(s@, i as int) is None,
        },
{
    match parse_bytes_field(s, i) {
        Some((b, j)) => {
            let ghost bs = b@;
            match vec_to_string(b) {
                Some(t) => {
                    proof {
                        broadcast use vstd::utf8::encode_utf8_decode_utf8;

                    }
                    Some((t, j))
                },
                None => None,
            }
        },
        None => None,
    }
}

/// Appends a text field to `out`.
pub fn push_str_field(out: &mut Vec<u8>, t: &str)
    requires
        encode_utf8(t@).len() <= u32::MAX,
    ensures
        final(out)@ == old(out)@ + str_enc(t@),
{
    let bytes = t.as_bytes();
    push_num(out, bytes.len() as u32);
    out.extend_from_slice(bytes);
    assert(final(out)@ =~= old(out)@ + str_enc(t@));
}

// ---------------------------------------------------------------------------
// Decimal text, for composing human-readable endpoints.
// ---------------------------------------------------------------------------
/// The digit character for `d`.
pub open spec fn digit_char(d: nat) -> char {
    if d == 0 {
        '0'
    } else if d == 1 {
        '1'
    } else if d == 2 {
        '2'
    } else if d == 3 {
        '3'
    } else if d == 4 {
        '4'
    } else if d == 5 {
        '5'
    } else if d == 6 {
        '6'
    } else if d == 7 {
        '7'
    } else if d == 8 {
        '8'
    } else {
        '9'
    }
}

/// `n` written in decimal, without padding.
pub open spec fn dec_chars(n: nat) -> Seq<char>
    decreases n,
{
    if n < 10 {
        seq![digit_char(n)]
    } else {
        dec_chars(n / 10) + seq![digit_char(n % 10)]
    }
}

/// The one-character string for the digit `d`.
fn digit_str(d: u32) -> (r: &'static str)
    requires
        d < 10,
    ensures
        r@ == seq![digit_char(d as nat)],
{
    let s: &'static str = if d == 0 {
        "0"
    } else if d == 1 {
        "1"
    } else if d == 2 {
        "2"
    } else if d == 3 {
        "3"
    } else if d == 4 {
        "4"
    } else if d == 5 {
        "5"
    } else if d == 6 {
        "6"
    } else if d == 7 {
        "7"
    } else if d == 8 {
        "8"
    } else {
        "9"
    };
    proof {
        reveal_strlit("0");
        reveal_strlit("1");
        reveal_strlit("2");
        reveal_strlit("3");
        reveal_strlit("4");
        reveal_strlit("5");
        reveal_strlit("6");
        reveal_strlit("7");
        reveal_strlit("8");
        reveal_strlit("9");
        assert(s@ =~= seq![digit_char(d as nat)]);
    }
    s
}

/// Appends `n` in decimal to `out`.
pub fn push_digits(out: &mut String, n: u32)
    ensures
        final(out)@ == old(out)@ + dec_chars(n as nat),
    decreases n,
{
    if n < 10 {
        out.append(digit_str(n));
    } else {
        push_digits(out, n / 10);
        out.append(digit_str(n % 10));
        assert(final(out)@ =~= old(out)@ + dec_chars(n as nat));
    }
}

/// The endpoint text for a host and a port: `host:port`.
pub open spec fn spec_endpoint(ip: Seq<char>, port: u32) -> Seq<char> {
    ip + seq![':'] + dec_chars(port as nat)
}

/// Composes the endpoint text for a host and a port.
pub fn endpoint_of(ip: &str, port: u32) -> (r: String)
    ensures
        r@ == spec_endpoint(ip@, port),
{
    let mut s = ip.to_owned();
    proof {
        reveal_strlit(":");
    }
    s.append(":");
    push_digits(&mut s, port);
    proof {
        assert(s@ =~= spec_endpoint(ip@, port));
    }
    s
}

} // verus!
