//! A model of well-formed UTF-8 and a lossy rendering of arbitrary bytes into
//! it: maximal well-formed scalar sequences pass through unchanged, and every
//! byte that begins no well-formed sequence is replaced by its escape token.

use vstd::prelude::*;
use crate::escape::{escape_of, escape_all_of, is_ascii_alphanumeric_byte, lemma_hex_digit_ascii,
    push_escape};

verus! {

/// True of a UTF-8 continuation byte.
pub open spec fn is_cont(b: u8) -> bool {
    0x80 <= b && b <= 0xbf
}

/// True when `a`, `b` form a well-formed two-byte scalar encoding.
pub open spec fn is_head2(a: u8, b: u8) -> bool {
    0xc2 <= a && a <= 0xdf && is_cont(b)
}

/// True when `a`, `b`, `c` form a well-formed three-byte scalar encoding
/// (surrogates and overlong forms excluded).
pub open spec fn is_head3(a: u8, b: u8, c: u8) -> bool {
    is_cont(c) && ((a == 0xe0 && 0xa0 <= b && b <= 0xbf) || (0xe1 <= a && a <= 0xec && is_cont(b))
        || (a == 0xed && 0x80 <= b && b <= 0x9f) || (0xee <= a && a <= 0xef && is_cont(b)))
}

/// True when `a`, `b`, `c`, `d` form a well-formed four-byte scalar encoding
/// (overlong forms and values past the last scalar excluded).
pub open spec fn is_head4(a: u8, b: u8, c: u8, d: u8) -> bool {
    is_cont(c) && is_cont(d) && ((a == 0xf0 && 0x90 <= b && b <= 0xbf) || (0xf1 <= a && a <= 0xf3
        && is_cont(b)) || (a == 0xf4 && 0x80 <= b && b <= 0x8f))
}

/// Length of the well-formed scalar encoding at the head of `s`, or zero if
/// `s` begins with no complete well-formed encoding.
pub open spec fn head_len(s: Seq<u8>) -> int {
    if s.len() >= 1 && s[0] <= 0x7f {
        1
    } else if s.len() >= 2 && is_head2(s[0], s[1]) {
        2
    } else if s.len() >= 3 && is_head3(s[0], s[1], s[2]) {
        3
    } else if s.len() >= 4 && is_head4(s[0], s[1], s[2], s[3]) {
        4
    } else {
        0
    }
}

/// `s` is a concatenation of well-formed scalar encodings: valid UTF-8.
pub open spec fn is_utf8(s: Seq<u8>) -> bool
    decreases s.len(),
{
    s.len() == 0 || (head_len(s) > 0 && is_utf8(s.skip(head_len(s))))
}

/// The lossy rendering of `s`: each well-formed scalar encoding passes
/// through; each byte beginning none is replaced by its escape token.
pub open spec fn utf8_lossy_escaped(s: Seq<u8>) -> Seq<u8>
    decreases s.len(),
{
    if s.len() == 0 {
        Seq::empty()
    } else if head_len(s) > 0 {
        s.take(head_len(s)) + utf8_lossy_escaped(s.skip(head_len(s)))
    } else {
        escape_of(s[0]) + utf8_lossy_escaped(s.skip(1))
    }
}

/// The head encoding of `a` is still the head encoding of `a + b`: appending
/// bytes changes no decision already made on a complete encoding.
pub proof fn lemma_head_len_concat(a: Seq<u8>, b: Seq<u8>)
    requires
        head_len(a) > 0,
    ensures
        head_len(a + b) == head_len(a),
{
    assert(forall|i: int| 0 <= i < a.len() ==> (a + b)[i] == a[i]);
}

/// A complete head encoding, taken alone, is its own head encoding.
pub proof fn lemma_head_len_take(s: Seq<u8>)
    requires
        head_len(s) > 0,
    ensures
        head_len(s.take(head_len(s))) == head_len(s),
{
    assert(forall|i: int| 0 <= i < head_len(s) ==> s.take(head_len(s))[i] == s[i]);
}

/// A single complete head encoding is valid UTF-8.
pub proof fn lemma_head_chunk_utf8(s: Seq<u8>)
    requires
        head_len(s) > 0,
    ensures
        is_utf8(s.take(head_len(s))),
{
    lemma_head_len_take(s);
    let c = s.take(head_len(s));
    assert(c.skip(head_len(c)) =~= Seq::<u8>::empty());
    assert(is_utf8(Seq::<u8>::empty()));
    assert(is_utf8(c.skip(head_len(c))));
}

/// Valid UTF-8 is closed under concatenation.
pub proof fn lemma_utf8_concat(a: Seq<u8>, b: Seq<u8>)
    requires
        is_utf8(a),
        is_utf8(b),
    ensures
        is_utf8(a + b),
    decreases a.len(),
{
    if a.len() == 0 {
        assert(a + b =~= b);
    } else {
        let l = head_len(a);
        lemma_head_len_concat(a, b);
        assert((a + b).skip(l) =~= a.skip(l) + b);
        lemma_utf8_concat(a.skip(l), b);
    }
}

/// A sequence of ASCII bytes is valid UTF-8.
pub proof fn lemma_ascii_utf8(s: Seq<u8>)
    requires
        forall|i: int| 0 <= i < s.len() ==> s[i] <= 0x7f,
    ensures
        is_utf8(s),
    decreases s.len(),
{
    if s.len() > 0 {
        assert(head_len(s) == 1);
        assert(forall|i: int| 0 <= i < s.skip(1).len() ==> s.skip(1)[i] == s[i + 1]);
        lemma_ascii_utf8(s.skip(1));
    }
}

/// An escape token is ASCII, hence valid UTF-8.
pub proof fn lemma_escape_utf8(b: u8)
    ensures
        is_utf8(escape_of(b)),
{
    lemma_hex_digit_ascii(b as int / 16);
    lemma_hex_digit_ascii(b as int % 16);
    lemma_ascii_utf8(escape_of(b));
}

/// A whole message escaped byte by byte is valid UTF-8.
pub proof fn lemma_escape_all_utf8(s: Seq<u8>)
    ensures
        is_utf8(escape_all_of(s)),
    decreases s.len(),
{
    if s.len() == 0 {
        assert(is_utf8(escape_all_of(s)));
    } else {
        lemma_escape_utf8(s[0]);
        lemma_escape_all_utf8(s.skip(1));
        lemma_utf8_concat(escape_of(s[0]), escape_all_of(s.skip(1)));
    }
}

/// The lossy rendering of any byte sequence is valid UTF-8.
pub proof fn lemma_lossy_utf8(s: Seq<u8>)
    ensures
        is_utf8(utf8_lossy_escaped(s)),
    decreases s.len(),
{
    if s.len() == 0 {
    } else if head_len(s) > 0 {
        lemma_head_chunk_utf8(s);
        lemma_lossy_utf8(s.skip(head_len(s)));
        lemma_utf8_concat(s.take(head_len(s)), utf8_lossy_escaped(s.skip(head_len(s))));
    } else {
        lemma_escape_utf8(s[0]);
        lemma_lossy_utf8(s.skip(1));
        lemma_utf8_concat(escape_of(s[0]), utf8_lossy_escaped(s.skip(1)));
    }
}

/// On valid UTF-8 the lossy rendering is the identity: nothing is escaped.
pub proof fn lemma_lossy_identity(s: Seq<u8>)
    requires
        is_utf8(s),
    ensures
        utf8_lossy_escaped(s) == s,
    decreases s.len(),
{
    if s.len() > 0 {
        let l = head_len(s);
        lemma_lossy_identity(s.skip(l));
        assert(s.take(l) + s.skip(l) =~= s);
    }
}

/// A valid UTF-8 prefix passes through the lossy rendering unchanged,
/// whatever follows it.
pub proof fn lemma_lossy_concat_left(a: Seq<u8>, b: Seq<u8>)
    requires
        is_utf8(a),
    ensures
        utf8_lossy_escaped(a + b) == a + utf8_lossy_escaped(b),
    decreases a.len(),
{
    if a.len() == 0 {
        assert(a + b =~= b);
        assert(a + utf8_lossy_escaped(b) =~= utf8_lossy_escaped(b));
    } else {
        let l = head_len(a);
        lemma_head_len_concat(a, b);
        assert((a + b).take(l) =~= a.take(l));
        assert((a + b).skip(l) =~= a.skip(l) + b);
        lemma_lossy_concat_left(a.skip(l), b);
        assert(a.take(l) + (a.skip(l) + utf8_lossy_escaped(b)) =~= a + utf8_lossy_escaped(b));
    }
}

/// A nonempty message has a nonempty lossy rendering.
pub proof fn lemma_lossy_nonempty(s: Seq<u8>)
    requires
        s.len() > 0,
    ensures
        utf8_lossy_escaped(s).len() > 0,
{
}

/// A message that ends with an alphanumeric ASCII byte has a lossy rendering
/// that ends with that same byte: rendered text never gains trailing
/// whitespace or control characters.
pub proof fn lemma_lossy_ends_alphanumeric(s: Seq<u8>)
    requires
        s.len() > 0,
        is_ascii_alphanumeric_byte(s.last()),
    ensures
        utf8_lossy_escaped(s).len() > 0,
        utf8_lossy_escaped(s).last() == s.last(),
    decreases s.len(),
{
    let l = head_len(s);
    if l > 0 {
        if l == s.len() {
            assert(s.skip(l) =~= Seq::<u8>::empty());
            assert(utf8_lossy_escaped(s.skip(l)) =~= Seq::<u8>::empty());
            assert(utf8_lossy_escaped(s) =~= s.take(l));
            assert(s.take(l) =~= s);
        } else {
            assert(s.skip(l).last() == s.last());
            lemma_lossy_ends_alphanumeric(s.skip(l));
            assert(utf8_lossy_escaped(s).last() == utf8_lossy_escaped(s.skip(l)).last());
        }
    } else {
        assert(s.len() != 1) by {
            if s.len() == 1 {
                assert(s[0] == s.last());
                assert(s[0] <= 0x7f);
                assert(head_len(s) == 1);
            }
        }
        assert(s.skip(1).last() == s.last());
        lemma_lossy_ends_alphanumeric(s.skip(1));
        assert(utf8_lossy_escaped(s).last() == utf8_lossy_escaped(s.skip(1)).last());
    }
}

/// Length of the well-formed scalar encoding starting at position `i` of `s`,
/// or zero if none does.
pub fn head_len_at(s: &[u8], i: usize) -> (l: usize)
    requires
        i < s@.len(),
    ensures
        l == head_len(s@.skip(i as int)),
        i + l <= s@.len(),
{
    proof {
        assert(s@.skip(i as int).len() == s@.len() - i);
        assert(forall|j: int| 0 <= j < s@.len() - i ==> s@.skip(i as int)[j] == s@[i + j]);
    }
    let n = s.len();
    let b0 = s[i];
    if b0 <= 0x7f {
        1
    } else if 0xc2 <= b0 && b0 <= 0xdf {
        if n - i >= 2 {
            let b1 = s[i + 1];
            if 0x80 <= b1 && b1 <= 0xbf {
                2
            } else {
                0
            }
        } else {
            0
        }
    } else if 0xe0 <= b0 && b0 <= 0xef {
        if n - i >= 3 {
            let b1 = s[i + 1];
            let b2 = s[i + 2];
            let ok1 = (b0 == 0xe0 && 0xa0 <= b1 && b1 <= 0xbf) || (0xe1 <= b0 && b0 <= 0xec
                && 0x80 <= b1 && b1 <= 0xbf) || (b0 == 0xed && 0x80 <= b1 && b1 <= 0x9f) || (0xee
                <= b0 && 0x80 <= b1 && b1 <= 0xbf);
            if ok1 && 0x80 <= b2 && b2 <= 0xbf {
                3
            } else {
                0
            }
        } else {
            0
        }
    } else if 0xf0 <= b0 && b0 <= 0xf4 {
        if n - i >= 4 {
            let b1 = s[i + 1];
            let b2 = s[i + 2];
            let b3 = s[i + 3];
            let ok1 = (b0 == 0xf0 && 0x90 <= b1 && b1 <= 0xbf) || (0xf1 <= b0 && b0 <= 0xf3
                && 0x80 <= b1 && b1 <= 0xbf) || (b0 == 0xf4 && 0x80 <= b1 && b1 <= 0x8f);
            if ok1 && 0x80 <= b2 && b2 <= 0xbf && 0x80 <= b3 && b3 <= 0xbf {
                4
            } else {
                0
            }
        } else {
            0
        }
    } else {
        0
    }
}

/// Appends the lossy rendering of `s` to `out`: well-formed scalar encodings
/// pass through in input order, every other byte becomes its escape token.
pub fn push_utf8_lossy(out: &mut Vec<u8>, s: &[u8])
    ensures
        final(out)@ == old(out)@ + utf8_lossy_escaped(s@),
{
    proof {
        assert(s@.skip(0) =~= s@);
    }
    let n = s.len();
    let mut i: usize = 0;
    while i < n
        invariant
            i <= s@.len(),
            n == s@.len(),
            out@ + utf8_lossy_escaped(s@.skip(i as int)) == old(out)@ + utf8_lossy_escaped(s@),
        decreases s@.len() - i,
    {
        let l = head_len_at(s, i);
        if l > 0 {
            let ghost prev: Seq<u8> = out@;
            let mut j: usize = 0;
            while j < l
                invariant
                    j <= l,
                    i + l <= s@.len(),
                    n == s@.len(),
                    out@ == prev + s@.subrange(i as int, i + j),
                decreases l - j,
            {
                out.push(s[i + j]);
                proof {
                    assert(out@ =~= prev + s@.subrange(i as int, i + j + 1));
                }
                j = j + 1;
            }
            proof {
                let rem = s@.skip(i as int);
                assert(s@.subrange(i as int, i + l) =~= rem.take(l as int));
                assert(rem.skip(l as int) =~= s@.skip(i + l));
                assert((prev + rem.take(l as int)) + utf8_lossy_escaped(s@.skip(i + l)) =~= prev
                    + (rem.take(l as int) + utf8_lossy_escaped(rem.skip(l as int))));
            }
            i = i + l;
        } else {
            let b = s[i];
            push_escape(out, b);
            proof {
                let rem = s@.skip(i as int);
                assert(rem[0] == s@[i as int]);
                assert(rem.skip(1) =~= s@.skip(i + 1));
                assert((old(out)@ + utf8_lossy_escaped(s@)) =~= (out@ + utf8_lossy_escaped(s@.skip(
                    i + 1,
                ))));
            }
            i = i + 1;
        }
    }
    proof {
        assert(s@.skip(s@.len() as int) =~= Seq::<u8>::empty());
        assert(out@ =~= out@ + utf8_lossy_escaped(s@.skip(s@.len() as int)));
    }
}

} // verus!
