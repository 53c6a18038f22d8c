//! Escaping of literal strings and of names, with the laws that decoding
//! inverts both.
//!
//! A literal string is wrapped in parentheses by its caller; within it a
//! backslash becomes a double backslash and each parenthesis gains a
//! backslash. A name byte outside the printable range `!`..`~`, or a `#`
//! itself, becomes `#` followed by two lowercase hexadecimal digits.

use vstd::prelude::*;

verus! {

pub const BACKSLASH: u8 = 0x5c;

pub const LPAREN: u8 = 0x28;

pub const RPAREN: u8 = 0x29;

pub const HASH: u8 = 0x23;

/// What one byte of a literal string becomes.
pub open spec fn spec_escape_string_byte(b: u8) -> Seq<u8> {
    if b == BACKSLASH {
        seq![BACKSLASH, BACKSLASH]
    } else if b == LPAREN {
        seq![BACKSLASH, LPAREN]
    } else if b == RPAREN {
        seq![BACKSLASH, RPAREN]
    } else {
        seq![b]
    }
}

/// A literal string's bytes with backslashes and parentheses escaped.
pub open spec fn spec_escape_string(s: Seq<u8>) -> Seq<u8>
    decreases s.len(),
{
    if s.len() == 0 {
        Seq::empty()
    } else {
        spec_escape_string_byte(s[0]) + spec_escape_string(s.drop_first())
    }
}

/// The inverse reading of an escaped literal string: a backslash followed by
/// one of the three escapable bytes stands for that byte; anything else
/// stands for itself.
pub open spec fn spec_unescape_string(s: Seq<u8>) -> Seq<u8>
    decreases s.len(),
{
    if s.len() == 0 {
        Seq::empty()
    } else if s.len() >= 2 && s[0] == BACKSLASH && (s[1] == BACKSLASH || s[1] == LPAREN || s[1]
        == RPAREN) {
        seq![s[1]] + spec_unescape_string(s.subrange(2, s.len() as int))
    } else {
        seq![s[0]] + spec_unescape_string(s.drop_first())
    }
}

/// The lowercase hexadecimal digit for `n`, which must be below 16.
pub open spec fn spec_hex_digit(n: u8) -> u8 {
    if n < 10 {
        (0x30 + n) as u8
    } else {
        (0x57 + n) as u8
    }
}

/// The value of a lowercase hexadecimal digit.
pub open spec fn spec_hex_value(b: u8) -> u8 {
    if 0x30 <= b && b <= 0x39 {
        (b - 0x30) as u8
    } else if 0x61 <= b && b <= 0x66 {
        (b - 0x57) as u8
    } else {
        0
    }
}

/// Whether a byte of a name passes through unescaped: printable and not `#`.
pub open spec fn name_byte_plain(b: u8) -> bool {
    0x21 <= b && b <= 0x7e && b != HASH
}

/// What one byte of a name becomes.
pub open spec fn spec_escape_name_byte(b: u8) -> Seq<u8> {
    if name_byte_plain(b) {
        seq![b]
    } else {
        seq![HASH, spec_hex_digit(b / 16), spec_hex_digit(b % 16)]
    }
}

/// A name's bytes with everything outside `!`..`~`, and `#` itself, written
/// as `#` plus two lowercase hexadecimal digits.
pub open spec fn spec_escape_name(s: Seq<u8>) -> Seq<u8>
    decreases s.len(),
{
    if s.len() == 0 {
        Seq::empty()
    } else {
        spec_escape_name_byte(s[0]) + spec_escape_name(s.drop_first())
    }
}

/// The inverse reading of an escaped name: `#` followed by two hexadecimal
/// digits stands for the byte they spell; anything else stands for itself.
pub open spec fn spec_unescape_name(s: Seq<u8>) -> Seq<u8>
    decreases s.len(),
{
    if s.len() == 0 {
        Seq::empty()
    } else if s[0] == HASH && s.len() >= 3 {
        seq![(16 * spec_hex_value(s[1]) + spec_hex_value(s[2])) as u8] + spec_unescape_name(
            s.subrange(3, s.len() as int),
        )
    } else {
        seq![s[0]] + spec_unescape_name(s.drop_first())
    }
}

/// Appending one byte to a string appends that byte's escape to the
/// escaped string.
pub proof fn lemma_escape_string_push(s: Seq<u8>, b: u8)
    ensures
        spec_escape_string(s.push(b)) == spec_escape_string(s) + spec_escape_string_byte(b),
    decreases s.len(),
{
    if s.len() == 0 {
        assert(s.push(b)[0] == b);
        assert(s.push(b).drop_first() =~= Seq::<u8>::empty());
        assert(spec_escape_string(s.push(b).drop_first()) =~= Seq::<u8>::empty());
        assert(spec_escape_string(s.push(b)) =~= spec_escape_string(s) + spec_escape_string_byte(
            b,
        ));
    } else {
        assert(s.push(b)[0] == s[0]);
        assert(s.push(b).drop_first() =~= s.drop_first().push(b));
        lemma_escape_string_push(s.drop_first(), b);
        assert(spec_escape_string(s.push(b)) =~= spec_escape_string(s) + spec_escape_string_byte(
            b,
        ));
    }
}

/// Appending one byte to a name appends that byte's escape to the
/// escaped name.
pub proof fn lemma_escape_name_push(s: Seq<u8>, b: u8)
    ensures
        spec_escape_name(s.push(b)) == spec_escape_name(s) + spec_escape_name_byte(b),
    decreases s.len(),
{
    if s.len() == 0 {
        assert(s.push(b)[0] == b);
        assert(s.push(b).drop_first() =~= Seq::<u8>::empty());
        assert(spec_escape_name(s.push(b).drop_first()) =~= Seq::<u8>::empty());
        assert(spec_escape_name(s.push(b)) =~= spec_escape_name(s) + spec_escape_name_byte(b));
    } else {
        assert(s.push(b)[0] == s[0]);
        assert(s.push(b).drop_first() =~= s.drop_first().push(b));
        lemma_escape_name_push(s.drop_first(), b);
        assert(spec_escape_name(s.push(b)) =~= spec_escape_name(s) + spec_escape_name_byte(b));
    }
}

/// Law: decoding an escaped literal string reproduces the original bytes,
/// whatever backslashes and parentheses it held.
pub proof fn lemma_escape_string_round_trip(s: Seq<u8>)
    ensures
        spec_unescape_string(spec_escape_string(s)) == s,
    decreases s.len(),
{
    if s.len() == 0 {
    } else {
        let e = spec_escape_string(s);
        let eb = spec_escape_string_byte(s[0]);
        let rest = spec_escape_string(s.drop_first());
        lemma_escape_string_round_trip(s.drop_first());
        if s[0] == BACKSLASH || s[0] == LPAREN || s[0] == RPAREN {
            assert(e.len() >= 2 && e[0] == BACKSLASH && e[1] == s[0]);
            assert(e.subrange(2, e.len() as int) =~= rest);
            assert(spec_unescape_string(e) =~= s);
        } else {
            assert(e[0] == s[0] && e[0] != BACKSLASH);
            assert(e.drop_first() =~= rest);
            assert(spec_unescape_string(e) =~= s);
        }
    }
}

/// Law: every byte of an escaped name is printable (in `!`..`~`), and a `#`
/// occurs only opening an escape, followed by its two hexadecimal digits.
pub proof fn lemma_escape_name_printable(s: Seq<u8>)
    ensures
        forall|i: int|
            0 <= i < spec_escape_name(s).len() ==> 0x21 <= #[trigger] spec_escape_name(s)[i]
                <= 0x7e,
        forall|i: int|
            0 <= i < spec_escape_name(s).len() && #[trigger] spec_escape_name(s)[i] == HASH ==> i
                + 2 < spec_escape_name(s).len(),
    decreases s.len(),
{
    if s.len() == 0 {
    } else {
        lemma_escape_name_printable(s.drop_first());
        let e = spec_escape_name(s);
        let eb = spec_escape_name_byte(s[0]);
        let rest = spec_escape_name(s.drop_first());
        assert(forall|i: int| 0 <= i < eb.len() ==> 0x21 <= #[trigger] eb[i] <= 0x7e);
        assert(forall|i: int|
            eb.len() <= i < e.len() ==> e[i] == rest[i - eb.len()]);
        assert(forall|i: int| 0 <= i < e.len() && #[trigger] e[i] == HASH ==> i + 2 < e.len()) by {
            assert(eb[0] == HASH ==> eb.len() == 3);
            assert(forall|j: int| 1 <= j < eb.len() ==> #[trigger] eb[j] != HASH);
        }
    }
}

/// Law: decoding the hexadecimal escapes of an escaped name reproduces the
/// original bytes.
pub proof fn lemma_escape_name_round_trip(s: Seq<u8>)
    ensures
        spec_unescape_name(spec_escape_name(s)) == s,
    decreases s.len(),
{
    if s.len() == 0 {
    } else {
        let e = spec_escape_name(s);
        let rest = spec_escape_name(s.drop_first());
        lemma_escape_name_round_trip(s.drop_first());
        if name_byte_plain(s[0]) {
            assert(e[0] == s[0] && e[0] != HASH);
            assert(e.drop_first() =~= rest);
            assert(spec_unescape_name(e) =~= s);
        } else {
            let b = s[0];
            assert(e[0] == HASH && e.len() >= 3);
            assert(e[1] == spec_hex_digit(b / 16) && e[2] == spec_hex_digit(b % 16));
            assert(spec_hex_value(spec_hex_digit(b / 16)) == b / 16);
            assert(spec_hex_value(spec_hex_digit(b % 16)) == b % 16);
            assert(16 * (b / 16) + b % 16 == b) by (nonlinear_arith);
            assert(e.subrange(3, e.len() as int) =~= rest);
            assert(spec_unescape_name(e) =~= s);
        }
    }
}

/// The escape of one literal-string byte, appended to `v`.
fn push_escaped_string_byte(v: &mut Vec<u8>, b: u8)
    ensures
        final(v)@ == old(v)@ + spec_escape_string_byte(b),
{
    if b == BACKSLASH || b == LPAREN || b == RPAREN {
        v.push(BACKSLASH);
    }
    v.push(b);
    proof {
        assert(v@ =~= old(v)@ + spec_escape_string_byte(b));
    }
}

/// A literal string's bytes with backslash and parenthesis escapes applied.
pub fn escape_string_bytes(s: &[u8]) -> (r: Vec<u8>)
    ensures
        r@ == spec_escape_string(s@),
{
    let mut r: Vec<u8> = Vec::new();
    let mut i: usize = 0;
    while i < s.len()
        invariant
            i <= s@.len(),
            r@ == spec_escape_string(s@.take(i as int)),
        decreases s@.len() - i,
    {
        let b = s[i];
        push_escaped_string_byte(&mut r, b);
        proof {
            assert(s@.take(i as int).push(b) =~= s@.take(i + 1));
            lemma_escape_string_push(s@.take(i as int), b);
        }
        i = i + 1;
    }
    proof {
        assert(s@.take(s@.len() as int) =~= s@);
    }
    r
}

/// The lowercase hexadecimal digit for `n`, which must be below 16.
fn hex_digit(n: u8) -> (r: u8)
    requires
        n < 16,
    ensures
        r == spec_hex_digit(n),
{
    if n < 10 {
        0x30 + n
    } else {
        0x57 + n
    }
}

/// The escape of one name byte, appended to `v`.
fn push_escaped_name_byte(v: &mut Vec<u8>, b: u8)
    ensures
        final(v)@ == old(v)@ + spec_escape_name_byte(b),
{
    if 0x21 <= b && b <= 0x7e && b != HASH {
        v.push(b);
    } else {
        v.push(HASH);
        let hi = hex_digit(b / 16);
        let lo = hex_digit(b % 16);
        v.push(hi);
        v.push(lo);
    }
    proof {
        assert(v@ =~= old(v)@ + spec_escape_name_byte(b));
    }
}

/// A name's bytes with hexadecimal escapes applied.
pub fn escape_name_bytes(s: &[u8]) -> (r: Vec<u8>)
    ensures
        r@ == spec_escape_name(s@),
{
    let mut r: Vec<u8> = Vec::new();
    let mut i: usize = 0;
    while i < s.len()
        invariant
            i <= s@.len(),
            r@ == spec_escape_name(s@.take(i as int)),
        decreases s@.len() - i,
    {
        let b = s[i];
        push_escaped_name_byte(&mut r, b);
        proof {
            assert(s@.take(i as int).push(b) =~= s@.take(i + 1));
            lemma_escape_name_push(s@.take(i as int), b);
        }
        i = i + 1;
    }
    proof {
        assert(s@.take(s@.len() as int) =~= s@);
    }
    r
}

} // verus!
