//! The fixed escape token for a byte that cannot be decoded: the four ASCII
//! bytes `\xHH`, where `HH` is the two-digit lowercase hexadecimal value of
//! the byte. The token is a function of the byte alone.

use vstd::prelude::*;

verus! {

/// Lowercase hexadecimal digit for a value below sixteen, as an ASCII byte.
pub open spec fn hex_digit(n: int) -> u8 {
    if n < 10 {
        (0x30 + n) as u8
    } else {
        (0x57 + n) as u8
    }
}

/// True of the ASCII bytes `0`..`9`, `a`..`z` and `A`..`Z`.
pub open spec fn is_ascii_alphanumeric_byte(b: u8) -> bool {
    (0x30 <= b && b <= 0x39) || (0x61 <= b && b <= 0x7a) || (0x41 <= b && b <= 0x5a)
}

/// The escape token for byte `b`: backslash, `x`, then two hex digits.
pub open spec fn escape_of(b: u8) -> Seq<u8> {
    seq![0x5cu8, 0x78u8, hex_digit(b as int / 16), hex_digit(b as int % 16)]
}

/// Every byte of `s` replaced by its escape token, in input order.
pub open spec fn escape_all_of(s: Seq<u8>) -> Seq<u8>
    decreases s.len(),
{
    if s.len() == 0 {
        Seq::empty()
    } else {
        escape_of(s[0]) + escape_all_of(s.skip(1))
    }
}

/// Hex digits are alphanumeric ASCII, so in particular below 0x80.
pub proof fn lemma_hex_digit_ascii(n: int)
    requires
        0 <= n < 16,
    ensures
        is_ascii_alphanumeric_byte(hex_digit(n)),
        hex_digit(n) < 0x80,
{
}

/// Distinct bytes have distinct escape tokens.
pub proof fn lemma_escape_injective(a: u8, b: u8)
    requires
        escape_of(a) == escape_of(b),
    ensures
        a == b,
{
    assert(hex_digit(a as int / 16) == escape_of(a)[2]);
    assert(hex_digit(a as int % 16) == escape_of(a)[3]);
    assert(a as int / 16 == b as int / 16 && a as int % 16 == b as int % 16) by {
        assert(forall|x: int, y: int|
            0 <= x < 16 && 0 <= y < 16 && hex_digit(x) == hex_digit(y) ==> x == y);
    }
    assert(a as int == 16 * (a as int / 16) + a as int % 16);
    assert(b as int == 16 * (b as int / 16) + b as int % 16);
}

/// The last byte of an escape token is a hex digit, hence alphanumeric.
pub proof fn lemma_escape_ends_alphanumeric(b: u8)
    ensures
        escape_of(b).len() == 4,
        is_ascii_alphanumeric_byte(escape_of(b).last()),
{
    lemma_hex_digit_ascii(b as int % 16);
}

/// A run of escapes is four bytes per input byte.
pub proof fn lemma_escape_all_len(s: Seq<u8>)
    ensures
        escape_all_of(s).len() == 4 * s.len(),
    decreases s.len(),
{
    if s.len() > 0 {
        lemma_escape_all_len(s.skip(1));
    }
}

/// Within a run of escapes, the token standing for the byte at position `i`
/// is `escape_of(s[i])`, whatever the surrounding bytes are: the rendering of
/// an undecodable byte depends on that byte alone.
pub proof fn lemma_escape_all_at(s: Seq<u8>, i: int)
    requires
        0 <= i < s.len(),
    ensures
        escape_all_of(s).subrange(4 * i, 4 * i + 4) == escape_of(s[i]),
    decreases i,
{
    lemma_escape_all_len(s);
    if i == 0 {
        lemma_escape_all_len(s.skip(1));
        assert(escape_all_of(s).subrange(0, 4) =~= escape_of(s[0]));
    } else {
        lemma_escape_all_at(s.skip(1), i - 1);
        lemma_escape_all_len(s.skip(1));
        assert(escape_all_of(s).subrange(4 * i, 4 * i + 4) =~= escape_all_of(s.skip(1)).subrange(
            4 * (i - 1),
            4 * (i - 1) + 4,
        ));
        assert(s.skip(1)[i - 1] == s[i]);
    }
}

/// A nonempty run of escapes is nonempty and ends with a hex digit: escaped
/// output never ends in whitespace or an unterminated token.
pub proof fn lemma_escape_all_ends_alphanumeric(s: Seq<u8>)
    requires
        s.len() > 0,
    ensures
        escape_all_of(s).len() > 0,
        is_ascii_alphanumeric_byte(escape_all_of(s).last()),
    decreases s.len(),
{
    lemma_escape_all_len(s);
    if s.len() == 1 {
        lemma_escape_ends_alphanumeric(s[0]);
        assert(escape_all_of(s.skip(1)) =~= Seq::<u8>::empty());
        assert(escape_all_of(s) =~= escape_of(s[0]));
    } else {
        lemma_escape_all_ends_alphanumeric(s.skip(1));
        assert(escape_all_of(s).last() == escape_all_of(s.skip(1)).last());
    }
}

/// Lowercase hexadecimal digit of a value below sixteen.
pub(crate) fn hex_digit_exec(n: u8) -> (r: u8)
    requires
        n < 16,
    ensures
        r == hex_digit(n as int),
{
    if n < 10 {
        0x30 + n
    } else {
        0x57 + n
    }
}

/// Appends the escape token of `b` to `out`.
pub fn push_escape(out: &mut Vec<u8>, b: u8)
    ensures
        final(out)@ == old(out)@ + escape_of(b),
{
    out.push(0x5c);
    out.push(0x78);
    out.push(hex_digit_exec(b / 16));
    out.push(hex_digit_exec(b % 16));
    assert(out@ =~= old(out)@ + escape_of(b));
}

/// Appends the escape token of every byte of `s` to `out`, in input order.
/// This is the degraded rendering used when no converter for the native
/// encoding can be opened: the whole message is escaped, byte by byte.
pub fn push_escape_all(out: &mut Vec<u8>, s: &[u8])
    ensures
        final(out)@ == old(out)@ + escape_all_of(s@),
{
    proof {
        assert(s@.skip(0) =~= s@);
    }
    let mut i: usize = 0;
    while i < s.len()
        invariant
            i <= s@.len(),
            out@ + escape_all_of(s@.skip(i as int)) == old(out)@ + escape_all_of(s@),
        decreases s@.len() - i,
    {
        let b = s[i];
        push_escape(out, b);
        proof {
            assert(s@.skip(i as int).skip(1) =~= s@.skip(i + 1));
            assert(s@.skip(i as int)[0] == s@[i as int]);
        }
        i = i + 1;
    }
    proof {
        assert(s@.skip(s@.len() as int) =~= Seq::<u8>::empty());
        assert(out@ =~= out@ + escape_all_of(s@.skip(s@.len() as int)));
    }
}

} // verus!

