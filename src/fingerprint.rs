use vstd::prelude::*;
use vstd::utf8::{encode_utf8, encode_utf8_decode_utf8};
use sha2::Digest;

use crate::text::push_char;

verus! {

/// The sixteen lower-case hexadecimal digits.
pub open spec fn hex_digit(n: u8) -> char {
    if n < 10 {
        (n + 48) as char
    } else {
        (n + 87) as char
    }
}

/// Lower-case hexadecimal text of a byte sequence, two digits per byte, high nibble first.
pub open spec fn hex_of(bytes: Seq<u8>) -> Seq<char>
    decreases bytes.len(),
{
    if bytes.len() == 0 {
        Seq::empty()
    } else {
        hex_of(bytes.drop_last()) + seq![hex_digit(bytes.last() / 16), hex_digit(bytes.last() % 16)]
    }
}

fn hex_digit_exec(n: u8) -> (c: char)
    requires
        n < 16,
    ensures
        c == hex_digit(n),
{
    if n < 10 {
        (n + 48) as char
    } else {
        (n + 87) as char
    }
}

/// Lower-case hexadecimal encoding of `bytes`.
pub fn hex_lower(bytes: &[u8]) -> (r: String)
    ensures
        r@ == hex_of(bytes@),
{
    let mut out = String::new();
    let mut i: usize = 0;
    while i < bytes.len()
        invariant
            i <= bytes@.len(),
            out@ == hex_of(bytes@.subrange(0, i as int)),
        decreases bytes@.len() - i,
    {
        let b = bytes[i];
        push_char(&mut out, hex_digit_exec(b / 16));
        push_char(&mut out, hex_digit_exec(b % 16));
        proof {
            let s = bytes@.subrange(0, i + 1);
            assert(s.drop_last() =~= bytes@.subrange(0, i as int));
        }
        i += 1;
    }
    assert(bytes@.subrange(0, bytes@.len() as int) =~= bytes@);
    out
}


/// ASCII decimal digits of `n`, most significant first, without leading zeros.
pub open spec fn decimal_bytes(n: nat) -> Seq<u8>
    decreases n,
{
    if n < 10 {
        seq![(48 + n) as u8]
    } else {
        decimal_bytes(n / 10) + seq![(48 + n % 10) as u8]
    }
}

/// The number that a sequence of ASCII decimal digits denotes.
pub open spec fn decimal_value(s: Seq<u8>) -> int
    decreases s.len(),
{
    if s.len() == 0 {
        0
    } else {
        decimal_value(s.drop_last()) * 10 + (s.last() - 48)
    }
}

/// The bytes that identify a search: the query's UTF-8 text, a `|`, and the limit in decimal.
pub open spec fn fingerprint_input(query: Seq<char>, limit: nat) -> Seq<u8> {
    encode_utf8(query) + seq![124u8] + decimal_bytes(limit)
}

/// The SHA-256 digest of a byte sequence.
pub uninterp spec fn sha256_of(data: Seq<u8>) -> Seq<u8>;

/// The fingerprint of a search: the hexadecimal SHA-256 digest of its identifying bytes.
pub open spec fn fingerprint_of(query: Seq<char>, limit: nat) -> Seq<char> {
    hex_of(sha256_of(fingerprint_input(query, limit)))
}

/// Relies on `sha2::Sha256::digest`: the SHA-256 digest of `data`, which is 32 bytes long.
#[verifier::external_body]
fn sha256(data: &[u8]) -> (r: Vec<u8>)
    ensures
        r@ == sha256_of(data@),
        r@.len() == 32,
{
    sha2::Sha256::digest(data).to_vec()
}

proof fn lemma_decimal_value(n: nat)
    ensures
        decimal_value(decimal_bytes(n)) == n,
    decreases n,
{
    let d = decimal_bytes(n);
    if n < 10 {
        assert(d.drop_last() =~= Seq::<u8>::empty());
        assert(decimal_value(d) == decimal_value(d.drop_last()) * 10 + (d.last() - 48));
    } else {
        lemma_decimal_value(n / 10);
        assert(d.drop_last() =~= decimal_bytes(n / 10));
        assert(d.last() == (48 + n % 10) as u8);
        assert((48 + n % 10) as u8 - 48 == n % 10);
        assert((n / 10) * 10 + n % 10 == n) by (nonlinear_arith);
        assert(decimal_value(d) == decimal_value(d.drop_last()) * 10 + (d.last() - 48));
    }
}

proof fn lemma_decimal_digits(n: nat)
    ensures
        decimal_bytes(n).len() >= 1,
        forall|i: int| 0 <= i < decimal_bytes(n).len() ==> 48 <= #[trigger] decimal_bytes(n)[i] <= 57,
    decreases n,
{
    if n >= 10 {
        lemma_decimal_digits(n / 10);
    }
}

fn decimal(n: usize) -> (r: Vec<u8>)
    ensures
        r@ == decimal_bytes(n as nat),
    decreases n,
{
    if n < 10 {
        let mut v: Vec<u8> = Vec::new();
        v.push((48 + n) as u8);
        v
    } else {
        let mut v = decimal(n / 10);
        v.push((48 + n % 10) as u8);
        v
    }
}

/// Decimal digits of `n` as text.
pub open spec fn decimal_chars(n: nat) -> Seq<char> {
    decimal_bytes(n).map_values(|b: u8| b as char)
}

/// `n` written in decimal.
pub fn decimal_text(n: usize) -> (r: String)
    ensures
        r@ == decimal_chars(n as nat),
{
    let digits = decimal(n);
    let mut out = String::new();
    let mut i: usize = 0;
    while i < digits.len()
        invariant
            i <= digits@.len(),
            digits@ == decimal_bytes(n as nat),
            out@ == digits@.subrange(0, i as int).map_values(|b: u8| b as char),
        decreases digits@.len() - i,
    {
        push_char(&mut out, digits[i] as char);
        assert(digits@.subrange(0, i + 1).map_values(|b: u8| b as char)
            =~= digits@.subrange(0, i as int).map_values(|b: u8| b as char).push(digits@[i as int] as char));
        i += 1;
    }
    assert(digits@.subrange(0, i as int) =~= digits@);
    out
}

/// Deterministic fingerprint of a `(query, limit)` pair, used to name a cached search.
pub fn search_fingerprint(query: &str, limit: usize) -> (r: String)
    ensures
        r@ == fingerprint_of(query@, limit as nat),
{
    let qb = query.as_bytes();
    let mut input: Vec<u8> = Vec::new();
    let mut i: usize = 0;
    while i < qb.len()
        invariant
            i <= qb@.len(),
            input@ == qb@.subrange(0, i as int),
        decreases qb@.len() - i,
    {
        input.push(qb[i]);
        proof {
            assert(input@ =~= qb@.subrange(0, i + 1));
        }
        i += 1;
    }
    input.push(124u8);
    let digits = decimal(limit);
    let ghost head = input@;
    let mut j: usize = 0;
    while j < digits.len()
        invariant
            j <= digits@.len(),
            input@ == head + digits@.subrange(0, j as int),
        decreases digits@.len() - j,
    {
        input.push(digits[j]);
        proof {
            assert(input@ =~= head + digits@.subrange(0, j + 1));
        }
        j += 1;
    }
    assert(input@ =~= fingerprint_input(query@, limit as nat));
    let digest = sha256(input.as_slice());
    hex_lower(digest.as_slice())
}

/// Distinct `(query, limit)` pairs hash distinct inputs: the fingerprints of two
/// searches can only coincide where SHA-256 itself collides.
pub proof fn lemma_fingerprint_inputs_distinct(q1: Seq<char>, n1: nat, q2: Seq<char>, n2: nat)
    ensures
        (q1 != q2 || n1 != n2) ==> fingerprint_input(q1, n1) != fingerprint_input(q2, n2),
{
    if fingerprint_input(q1, n1) == fingerprint_input(q2, n2) {
        let a = fingerprint_input(q1, n1);
        let d1 = decimal_bytes(n1);
        let d2 = decimal_bytes(n2);
        let e1 = encode_utf8(q1);
        let e2 = encode_utf8(q2);
        lemma_decimal_digits(n1);
        lemma_decimal_digits(n2);
        if d1.len() < d2.len() {
            let k = a.len() - d1.len() - 1;
            assert(a[k] == 124u8);
            assert(a[k] == d2[k - e2.len() - 1]);
        } else if d2.len() < d1.len() {
            let k = a.len() - d2.len() - 1;
            assert(a[k] == 124u8);
            assert(a[k] == d1[k - e1.len() - 1]);
        } else {
            assert(d1 =~= a.subrange(a.len() - d1.len(), a.len() as int));
            assert(d2 =~= a.subrange(a.len() - d2.len(), a.len() as int));
            lemma_decimal_value(n1);
            lemma_decimal_value(n2);
            assert(e1 =~= a.subrange(0, e1.len() as int));
            assert(e2 =~= a.subrange(0, e2.len() as int));
            encode_utf8_decode_utf8(q1);
            encode_utf8_decode_utf8(q2);
        }
    }
}

} // verus!
