//! Hex digits as ASCII bytes, and their spelling as spaces and tabs.
use vstd::prelude::*;
use vstd::string::StringExecFns;
use crate::error::{CipherError, ErrorKind};

verus! {

/// The ASCII lowercase hex digit for a value below 16.
pub open spec fn hex_digit(v: int) -> u8 {
    if v < 10 {
        (48 + v) as u8
    } else {
        (87 + v) as u8
    }
}

/// `0`-`9`, `a`-`f` or `A`-`F`.
pub open spec fn is_hex_digit(c: u8) -> bool {
    (48 <= c <= 57) || (97 <= c <= 102) || (65 <= c <= 70)
}

/// The value of a hex digit of either case.
pub open spec fn digit_value(c: u8) -> int {
    if 48 <= c <= 57 {
        c - 48
    } else if 97 <= c <= 102 {
        c - 87
    } else {
        c - 55
    }
}

/// Lowercase hex of a byte sequence: two digits per byte, high nibble first.
pub open spec fn hex_ascii(b: Seq<u8>) -> Seq<u8> {
    Seq::new(
        2 * b.len(),
        |i: int|
            if i % 2 == 0 {
                hex_digit(b[i / 2] as int / 16)
            } else {
                hex_digit(b[i / 2] as int % 16)
            },
    )
}

/// The bytes that pairs of hex digits stand for.
pub open spec fn hex_decoded(h: Seq<u8>) -> Seq<u8> {
    Seq::new(h.len() / 2, |i: int| (digit_value(h[2 * i]) * 16 + digit_value(h[2 * i + 1])) as u8)
}

/// Space or tab.
pub open spec fn is_ws(c: char) -> bool {
    c == ' ' || c == '\t'
}

/// The spaces and tabs of `s`, in order.
pub open spec fn keep_ws(s: Seq<char>) -> Seq<char>
    decreases s.len(),
{
    if s.len() == 0 {
        s
    } else if is_ws(s.last()) {
        keep_ws(s.drop_last()).push(s.last())
    } else {
        keep_ws(s.drop_last())
    }
}

/// Tab for a set bit, space for a clear one.
pub open spec fn bit_char(set: bool) -> char {
    if set {
        '\t'
    } else {
        ' '
    }
}

/// Bit `j` of a nibble, counting from the most significant (`j == 0`).
pub open spec fn nibble_bit(v: int, j: int) -> bool {
    (if j == 0 {
        v / 8
    } else if j == 1 {
        v / 4
    } else if j == 2 {
        v / 2
    } else {
        v
    }) % 2 == 1
}

/// Each hex digit spelled as four whitespace characters, most significant bit first.
pub open spec fn spaced(h: Seq<u8>) -> Seq<char> {
    Seq::new(4 * h.len(), |i: int| bit_char(nibble_bit(digit_value(h[i / 4]), i % 4)))
}

/// 1 for a tab, 0 for anything else.
pub open spec fn bit_value(c: char) -> u8 {
    if c == '\t' {
        1
    } else {
        0
    }
}

/// The hex digits that groups of four bits spell, most significant bit first.
pub open spec fn digits_of_bits(b: Seq<u8>) -> Seq<u8> {
    Seq::new(
        b.len() / 4,
        |i: int| hex_digit(8 * b[4 * i] + 4 * b[4 * i + 1] + 2 * b[4 * i + 2] + b[4 * i + 3]),
    )
}

/// Keeps the spaces and tabs of `ciphertext` and drops every other character.
pub fn clean_ciphertext(ciphertext: &str) -> (r: String)
    ensures
        r@ == keep_ws(ciphertext@),
{
    broadcast use vstd::string::axiom_spec_iter;

    let mut out = String::new();
    for c in it: ciphertext.chars()
        invariant
            it.seq() == ciphertext@,
            out@ == keep_ws(ciphertext@.take(it.index() as int)),
    {
        assert(ciphertext@.take(it.index() + 1).drop_last() =~= ciphertext@.take(it.index() as int));
        if c == ' ' {
            proof { reveal_strlit(" "); }
            out.append(" ");
        } else if c == '\t' {
            proof { reveal_strlit("\t"); }
            out.append("\t");
        }
    }
    assert(ciphertext@.take(ciphertext@.len() as int) =~= ciphertext@);
    out
}

/// Every character that `keep_ws` keeps is a space or a tab.
pub proof fn lemma_keep_ws_only_ws(s: Seq<char>)
    ensures
        forall|i: int| 0 <= i < keep_ws(s).len() ==> is_ws(#[trigger] keep_ws(s)[i]),
    decreases s.len(),
{
    if s.len() > 0 {
        lemma_keep_ws_only_ws(s.drop_last());
        let r = keep_ws(s.drop_last());
        assert forall|i: int| 0 <= i < keep_ws(s).len() implies is_ws(#[trigger] keep_ws(s)[i]) by {
            if i < r.len() {
                assert(keep_ws(s)[i] == r[i]);
            }
        }
    }
}

/// A sequence of spaces and tabs is kept whole.
pub proof fn lemma_keep_ws_of_ws(s: Seq<char>)
    requires
        forall|i: int| 0 <= i < s.len() ==> is_ws(#[trigger] s[i]),
    ensures
        keep_ws(s) == s,
    decreases s.len(),
{
    if s.len() > 0 {
        lemma_keep_ws_of_ws(s.drop_last());
        assert(s.drop_last().push(s.last()) =~= s);
    }
}

/// The value of a hex digit.
fn value_of_digit(c: u8) -> (v: u8)
    requires
        is_hex_digit(c),
    ensures
        v == digit_value(c),
        v < 16,
{
    if 48 <= c && c <= 57 {
        c - 48
    } else if 97 <= c && c <= 102 {
        c - 87
    } else {
        c - 55
    }
}

/// Appends the whitespace character for one bit.
fn push_bit(out: &mut String, set: bool)
    ensures
        final(out)@ == old(out)@.push(bit_char(set)),
{
    if set {
        proof { reveal_strlit("\t"); }
        out.append("\t");
    } else {
        proof { reveal_strlit(" "); }
        out.append(" ");
    }
}

/// Spells each hex digit as four spaces and tabs, most significant bit first.
pub fn spaces_from_hex(digits: &[u8]) -> (r: String)
    requires
        forall|i: int| 0 <= i < digits@.len() ==> is_hex_digit(#[trigger] digits@[i]),
    ensures
        r@ == spaced(digits@),
{
    let mut out = String::new();
    for i in 0..digits.len()
        invariant
            forall|k: int| 0 <= k < digits@.len() ==> is_hex_digit(#[trigger] digits@[k]),
            out@ == spaced(digits@.take(i as int)),
    {
        let v = value_of_digit(digits[i]);
        push_bit(&mut out, (v / 8) % 2 == 1);
        push_bit(&mut out, (v / 4) % 2 == 1);
        push_bit(&mut out, (v / 2) % 2 == 1);
        push_bit(&mut out, v % 2 == 1);
        assert(out@ =~= spaced(digits@.take(i + 1)));
    }
    assert(digits@.take(digits@.len() as int) =~= digits@);
    out
}

/// Maps each space to 0 and each tab to 1; any other character is refused.
pub fn bits_of(cleaned: &str) -> (r: Result<Vec<u8>, CipherError>)
    ensures
        r is Ok <==> forall|i: int| 0 <= i < cleaned@.len() ==> is_ws(#[trigger] cleaned@[i]),
        r matches Ok(b) ==> b@ == cleaned@.map_values(|c: char| bit_value(c)),
        r matches Err(e) ==> e.kind() == ErrorKind::InvalidCharacters,
{
    broadcast use vstd::string::axiom_spec_iter;

    let mut bits: Vec<u8> = Vec::new();
    for c in it: cleaned.chars()
        invariant
            it.seq() == cleaned@,
            bits@ == cleaned@.take(it.index() as int).map_values(|c: char| bit_value(c)),
            forall|k: int| 0 <= k < it.index() ==> is_ws(#[trigger] cleaned@[k]),
    {
        if c == ' ' {
            bits.push(0);
        } else if c == '\t' {
            bits.push(1);
        } else {
            return Err(CipherError::InvalidCharacters("a character other than space or tab".to_owned()));
        }
        assert(bits@ =~= cleaned@.take(it.index() + 1).map_values(|c: char| bit_value(c)));
    }
    assert(cleaned@.take(cleaned@.len() as int) =~= cleaned@);
    Ok(bits)
}

/// Reads each group of four bits, most significant first, as one lowercase hex digit.
pub fn hex_from_bits(bits: &[u8]) -> (r: Vec<u8>)
    requires
        bits@.len() % 4 == 0,
        forall|i: int| 0 <= i < bits@.len() ==> #[trigger] bits@[i] <= 1,
    ensures
        r@ == digits_of_bits(bits@),
{
    let len = bits.len();
    let n = len / 4;
    let mut out: Vec<u8> = Vec::with_capacity(n);
    for i in 0..n
        invariant
            len == bits@.len(),
            n == bits@.len() / 4,
            bits@.len() % 4 == 0,
            forall|k: int| 0 <= k < bits@.len() ==> #[trigger] bits@[k] <= 1,
            out@ == digits_of_bits(bits@).take(i as int),
    {
        assert(4 * i + 3 < bits@.len()) by (nonlinear_arith)
            requires
                i < n,
                n == bits@.len() / 4,
                bits@.len() % 4 == 0,
        ;
        let v: u8 = 8 * bits[4 * i] + 4 * bits[4 * i + 1] + 2 * bits[4 * i + 2] + bits[4 * i + 3];
        let d: u8 = if v < 10 { 48 + v } else { 87 + v };
        out.push(d);
        assert(out@ =~= digits_of_bits(bits@).take(i + 1));
    }
    assert(digits_of_bits(bits@).take(n as int) =~= digits_of_bits(bits@));
    out
}

} // verus!
