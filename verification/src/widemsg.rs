//! The wide-character message variant, used where the OS formats error
//! messages itself as UTF-16 code units: trailing carriage-return and
//! line-feed units are trimmed before decoding, and a zero-length message is
//! answered by a fixed numeric fallback text, `error 0x` followed by the code
//! in lowercase hexadecimal, zero-padded to at least four digits.

use vstd::prelude::*;
use crate::escape::{hex_digit, hex_digit_exec, is_ascii_alphanumeric_byte, lemma_hex_digit_ascii};
use crate::utf8::{is_utf8, lemma_ascii_utf8};

verus! {

/// How many lowercase hexadecimal digits the value needs, with zero needing
/// one.
pub open spec fn hex_digit_count(v: nat) -> nat
    decreases v,
{
    if v < 16 {
        1
    } else {
        1 + hex_digit_count(v / 16)
    }
}

/// The last `n` hexadecimal digits of `v`, most significant first: the
/// rendering of `v` zero-padded to width `n` when `n` covers all its digits.
pub open spec fn hex_seq(v: nat, n: nat) -> Seq<u8>
    decreases n,
{
    if n == 0 {
        Seq::empty()
    } else {
        hex_seq(v / 16, (n - 1) as nat) + seq![hex_digit((v % 16) as int)]
    }
}

/// The width of the numeric fallback: at least four digits, more when the
/// value needs them.
pub open spec fn fallback_width(v: nat) -> nat {
    if hex_digit_count(v) < 4 {
        4
    } else {
        hex_digit_count(v)
    }
}

/// The numeric fallback text for code `e`: the ASCII bytes of `error 0x`,
/// then the code in lowercase hexadecimal, zero-padded to at least four
/// digits.
pub open spec fn fallback_text_of(e: u32) -> Seq<u8> {
    seq![0x65u8, 0x72u8, 0x72u8, 0x6fu8, 0x72u8, 0x20u8, 0x30u8, 0x78u8] + hex_seq(
        e as nat,
        fallback_width(e as nat),
    )
}

/// Every byte of a hexadecimal rendering is an ASCII hex digit.
pub proof fn lemma_hex_seq_ascii(v: nat, n: nat)
    ensures
        hex_seq(v, n).len() == n,
        forall|i: int| 0 <= i < n ==> hex_seq(v, n)[i] <= 0x7f,
    decreases n,
{
    if n > 0 {
        lemma_hex_seq_ascii(v / 16, (n - 1) as nat);
        lemma_hex_digit_ascii((v % 16) as int);
    }
}

/// A nonempty hexadecimal rendering ends with a hex digit, which is
/// alphanumeric: the fallback text never ends in whitespace or punctuation.
pub proof fn lemma_fallback_ends_alphanumeric(e: u32)
    ensures
        fallback_text_of(e).len() > 0,
        is_ascii_alphanumeric_byte(fallback_text_of(e).last()),
{
    lemma_hex_seq_ascii(e as nat, fallback_width(e as nat));
    lemma_hex_digit_ascii((e as nat % 16) as int);
    assert(hex_seq(e as nat, fallback_width(e as nat)).last() == hex_digit((e as nat % 16) as int));
}

/// How many hexadecimal digits `v` needs; never more than eight for a 32-bit
/// value.
fn hex_digit_count_exec(v: u32) -> (n: usize)
    ensures
        n as nat == hex_digit_count(v as nat),
        1 <= n <= 8,
        v < 0x10000000 ==> n <= 7,
        v < 0x1000000 ==> n <= 6,
        v < 0x100000 ==> n <= 5,
        v < 0x10000 ==> n <= 4,
        v < 0x1000 ==> n <= 3,
        v < 0x100 ==> n <= 2,
        v < 0x10 ==> n <= 1,
    decreases v,
{
    if v < 16 {
        1
    } else {
        let m = hex_digit_count_exec(v / 16);
        m + 1
    }
}

/// Appends the last `n` hexadecimal digits of `v`, most significant first.
fn push_hex(out: &mut Vec<u8>, v: u32, n: usize)
    ensures
        final(out)@ == old(out)@ + hex_seq(v as nat, n as nat),
    decreases n,
{
    if n == 0 {
        proof {
            assert(out@ =~= out@ + hex_seq(v as nat, 0));
        }
    } else {
        push_hex(out, v / 16, n - 1);
        out.push(hex_digit_exec((v % 16) as u8));
        proof {
            assert(out@ =~= old(out)@ + hex_seq(v as nat, n as nat));
        }
    }
}

/// The numeric fallback used when the OS reports a zero-length message:
/// `error 0x` and the code in lowercase hexadecimal, zero-padded to at least
/// four digits. ASCII throughout, hence valid UTF-8.
pub fn fallback_code_text(e: u32) -> (out: Vec<u8>)
    ensures
        out@ == fallback_text_of(e),
        is_utf8(out@),
{
    let mut out: Vec<u8> = Vec::new();
    out.push(0x65);
    out.push(0x72);
    out.push(0x72);
    out.push(0x6f);
    out.push(0x72);
    out.push(0x20);
    out.push(0x30);
    out.push(0x78);
    let n = hex_digit_count_exec(e);
    let width = if n < 4 {
        4
    } else {
        n
    };
    push_hex(&mut out, e, width);
    proof {
        assert(out@ =~= fallback_text_of(e));
        lemma_hex_seq_ascii(e as nat, fallback_width(e as nat));
        assert(forall|i: int| 0 <= i < out@.len() ==> out@[i] <= 0x7f);
        lemma_ascii_utf8(out@);
    }
    out
}

/// True of the wide code units trimmed from a message's tail.
pub open spec fn is_wide_newline(w: u16) -> bool {
    w == 13 || w == 10
}

/// The length of `s` once every trailing carriage return and line feed is
/// dropped.
pub open spec fn trimmed_len(s: Seq<u16>) -> int
    decreases s.len(),
{
    if s.len() == 0 {
        0
    } else if is_wide_newline(s.last()) {
        trimmed_len(s.drop_last())
    } else {
        s.len() as int
    }
}

/// How many leading code units of `msg` remain when its trailing carriage
/// returns and line feeds are trimmed.
pub fn trim_trailing_newlines(msg: &[u16]) -> (n: usize)
    ensures
        n == trimmed_len(msg@),
        n <= msg@.len(),
{
    let mut n = msg.len();
    proof {
        assert(msg@.take(n as int) =~= msg@);
    }
    while n > 0 && (msg[n - 1] == 13 || msg[n - 1] == 10)
        invariant
            n <= msg@.len(),
            trimmed_len(msg@) == trimmed_len(msg@.take(n as int)),
        decreases n,
    {
        proof {
            assert(msg@.take(n as int).last() == msg@[n - 1]);
            assert(msg@.take(n as int).drop_last() =~= msg@.take(n - 1));
        }
        n = n - 1;
    }
    proof {
        if n > 0 {
            assert(msg@.take(n as int).last() == msg@[n - 1]);
        }
    }
    n
}

/// What widestring's UTF-16 lossy decode returns for a sequence of code
/// units; a function of the code units alone.
pub uninterp spec fn wide_lossy_of(s: Seq<u16>) -> Seq<char>;

/// Relies on widestring::U16Str::to_string_lossy: decodes the code units as
/// UTF-16, substituting U+FFFD for each unpaired surrogate; the result
/// depends on the code units alone. widestring::U16Str::from_slice only
/// reinterprets the slice.
#[verifier::external_body]
fn wide_to_utf8_lossy(msg: &[u16]) -> (r: String)
    ensures
        r@ == wide_lossy_of(msg@),
{
    widestring::U16Str::from_slice(msg).to_string_lossy()
}

/// Renders a wide-character message from the OS's own formatter: trailing
/// carriage-return and line-feed units are trimmed from the end, and the rest
/// is decoded to text, lossily — such messages are already well-formed, so
/// nothing is escaped on this path.
pub fn render_wide_message(msg: &[u16]) -> (r: String)
    ensures
        r@ == wide_lossy_of(msg@.take(trimmed_len(msg@))),
{
    let n = trim_trailing_newlines(msg);
    let trimmed = vstd::slice::slice_subrange(msg, 0, n);
    proof {
        assert(trimmed@ =~= msg@.take(trimmed_len(msg@)));
    }
    wide_to_utf8_lossy(trimmed)
}

} // verus!
