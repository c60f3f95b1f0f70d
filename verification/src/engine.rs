//! The incremental transcoding engine. A stateful native-to-UTF-8 converter
//! (such as iconv) is driven by an unverified caller in fixed-size output
//! chunks; the engine here owns the decisions: it keeps the input cursor, it
//! accumulates the output stream, it flushes each chunk in input order, and on
//! an unconvertible sequence it escapes exactly the first unconsumed byte and
//! moves the cursor past it. Whatever bytes the converter hands back, the
//! accumulated output is valid UTF-8: chunks are themselves passed through the
//! lossy rendering, which is the identity on the valid UTF-8 a real converter
//! produces.

use vstd::prelude::*;
use crate::escape::{escape_of, escape_all_of, push_escape, push_escape_all};
use crate::utf8::{is_utf8, utf8_lossy_escaped, push_utf8_lossy, lemma_utf8_concat,
    lemma_lossy_utf8, lemma_escape_utf8, lemma_lossy_identity, lemma_lossy_concat_left,
    lemma_escape_all_utf8};

verus! {

/// What one converter invocation reported: it converted all remaining input,
/// it ran out of room in the output buffer, or it stopped at an input
/// sequence it cannot convert (invalid or incomplete).
pub enum ConvStatus {
    Converted,
    OutputFull,
    Unconvertible,
}

/// The cursor position after a step: the converted bytes, plus the one
/// escaped byte when the converter stopped at an unconvertible sequence.
pub open spec fn step_pos(pos: int, consumed: int, status: ConvStatus) -> int {
    pos + consumed + if status is Unconvertible {
        1int
    } else {
        0int
    }
}

/// The output stream after a step: the chunk the converter produced, flushed
/// in input order through the lossy rendering, then the escape token of the
/// first unconsumed input byte when the converter stopped at one.
pub open spec fn step_output(
    out: Seq<u8>,
    msg: Seq<u8>,
    pos: int,
    consumed: int,
    produced: Seq<u8>,
    status: ConvStatus,
) -> Seq<u8> {
    out + utf8_lossy_escaped(produced) + if status is Unconvertible {
        escape_of(msg[pos + consumed])
    } else {
        Seq::<u8>::empty()
    }
}

/// One transcoding session for one native-encoded message. Owns the input
/// cursor and the output stream; never outlives the formatting call.
pub struct Transcoder {
    msg: Vec<u8>,
    pos: usize,
    out: Vec<u8>,
    done: bool,
}

impl Transcoder {
    /// The native-encoded message being transcoded.
    pub closed spec fn msg_spec(&self) -> Seq<u8> {
        self.msg@
    }

    /// How many input bytes are accounted for so far, by conversion or by
    /// escape.
    pub closed spec fn pos_spec(&self) -> int {
        self.pos as int
    }

    /// The UTF-8 output accumulated so far.
    pub closed spec fn out_spec(&self) -> Seq<u8> {
        self.out@
    }

    /// Whether the converter has reported the whole input converted.
    pub closed spec fn done_spec(&self) -> bool {
        self.done
    }

    /// The session invariant: the cursor never passes the end of the message,
    /// the output is always valid UTF-8, and a finished session has accounted
    /// for every input byte.
    pub open spec fn wf(&self) -> bool {
        &&& self.pos_spec() <= self.msg_spec().len()
        &&& is_utf8(self.out_spec())
        &&& (self.done_spec() ==> self.pos_spec() == self.msg_spec().len())
    }

    /// Opens a session for `msg`: cursor at the start, output empty.
    pub fn new(msg: Vec<u8>) -> (t: Self)
        ensures
            t.wf(),
            t.msg_spec() == msg@,
            t.pos_spec() == 0,
            t.out_spec() == Seq::<u8>::empty(),
            !t.done_spec(),
    {
        let t = Transcoder { msg, pos: 0, out: Vec::new(), done: false };
        proof {
            assert(t.out@ =~= Seq::<u8>::empty());
            assert(is_utf8(Seq::<u8>::empty()));
        }
        t
    }

    /// The cursor: how many input bytes the session has accounted for.
    pub fn position(&self) -> (r: usize)
        ensures
            r == self.pos_spec(),
    {
        self.pos
    }

    /// Total length of the message under transcoding.
    pub fn total_len(&self) -> (r: usize)
        ensures
            r == self.msg_spec().len(),
    {
        self.msg.len()
    }

    /// Whether the session is finished. Once true, no further step is taken.
    pub fn is_done(&self) -> (r: bool)
        ensures
            r == self.done_spec(),
    {
        self.done
    }

    /// The accumulated UTF-8 output.
    pub fn output(&self) -> (r: &Vec<u8>)
        ensures
            r@ == self.out_spec(),
    {
        &self.out
    }

    /// Hands the output stream out and ends the session.
    pub fn into_output(self) -> (r: Vec<u8>)
        ensures
            r@ == self.out_spec(),
    {
        self.out
    }

    /// Records the outcome of one converter invocation made with the input
    /// from the current cursor and a fresh output buffer: the converter
    /// consumed `consumed` input bytes and produced the chunk `produced`.
    ///
    /// The chunk is flushed first, in input order; if the converter stopped
    /// at an unconvertible sequence, the single byte at the cursor is then
    /// escaped and the cursor moves past it, so the next invocation retries
    /// from the following byte. A session that has reported `Converted` is
    /// finished and takes no further events.
    pub fn step(&mut self, consumed: usize, produced: &[u8], status: ConvStatus)
        requires
            old(self).wf(),
            !old(self).done_spec(),
            old(self).pos_spec() + consumed <= old(self).msg_spec().len(),
            status is Converted ==> old(self).pos_spec() + consumed == old(self).msg_spec().len(),
            status is Unconvertible ==> old(self).pos_spec() + consumed < old(
                self,
            ).msg_spec().len(),
        ensures
            final(self).wf(),
            final(self).msg_spec() == old(self).msg_spec(),
            final(self).done_spec() == (status is Converted),
            final(self).pos_spec() == step_pos(old(self).pos_spec(), consumed as int, status),
            final(self).out_spec() == step_output(
                old(self).out_spec(),
                old(self).msg_spec(),
                old(self).pos_spec(),
                consumed as int,
                produced@,
                status,
            ),
    {
        let n = self.msg.len();
        push_utf8_lossy(&mut self.out, produced);
        proof {
            lemma_lossy_utf8(produced@);
            lemma_utf8_concat(old(self).out_spec(), utf8_lossy_escaped(produced@));
        }
        match status {
            ConvStatus::Converted => {
                self.pos = self.pos + consumed;
                self.done = true;
                proof {
                    assert(self.out@ =~= step_output(
                        old(self).out_spec(),
                        old(self).msg_spec(),
                        old(self).pos_spec(),
                        consumed as int,
                        produced@,
                        status,
                    ));
                }
            },
            ConvStatus::OutputFull => {
                self.pos = self.pos + consumed;
                proof {
                    assert(self.out@ =~= step_output(
                        old(self).out_spec(),
                        old(self).msg_spec(),
                        old(self).pos_spec(),
                        consumed as int,
                        produced@,
                        status,
                    ));
                }
            },
            ConvStatus::Unconvertible => {
                let idx = self.pos + consumed;
                let b = self.msg[idx];
                proof {
                    let flushed = old(self).out_spec() + utf8_lossy_escaped(produced@);
                    lemma_escape_utf8(b);
                    lemma_utf8_concat(flushed, escape_of(b));
                }
                push_escape(&mut self.out, b);
                self.pos = idx + 1;
            },
        }
    }
}

/// An intermediate output-buffer boundary is invisible in the result: a
/// converter chunk flushed as a full buffer and then followed by the rest of
/// the events leaves the engine exactly where one flush of the combined chunk
/// would, provided the split chunk is itself well-formed UTF-8 — which holds
/// of a converter that never splits a scalar encoding across buffer fills.
pub proof fn lemma_buffer_boundary_invariant(
    out: Seq<u8>,
    msg: Seq<u8>,
    pos: int,
    c1: int,
    c2: int,
    p1: Seq<u8>,
    p2: Seq<u8>,
    status: ConvStatus,
)
    requires
        is_utf8(p1),
    ensures
        step_output(
            step_output(out, msg, pos, c1, p1, ConvStatus::OutputFull),
            msg,
            step_pos(pos, c1, ConvStatus::OutputFull),
            c2,
            p2,
            status,
        ) == step_output(out, msg, pos, c1 + c2, p1 + p2, status),
        step_pos(step_pos(pos, c1, ConvStatus::OutputFull), c2, status) == step_pos(
            pos,
            c1 + c2,
            status,
        ),
{
    lemma_lossy_concat_left(p1, p2);
    lemma_lossy_identity(p1);
    let tail = if status is Unconvertible {
        escape_of(msg[pos + c1 + c2])
    } else {
        Seq::<u8>::empty()
    };
    assert(step_output(
        step_output(out, msg, pos, c1, p1, ConvStatus::OutputFull),
        msg,
        step_pos(pos, c1, ConvStatus::OutputFull),
        c2,
        p2,
        status,
    ) =~= ((out + p1) + utf8_lossy_escaped(p2)) + tail);
    assert(step_output(out, msg, pos, c1 + c2, p1 + p2, status) =~= ((out + p1)
        + utf8_lossy_escaped(p2)) + tail);
}

/// The name under which the locale subsystem reports the UTF-8 encoding,
/// including its terminating NUL: the fast path is taken exactly on this
/// identifier.
pub open spec fn utf8_codeset_name() -> Seq<u8> {
    seq![0x55u8, 0x54u8, 0x46u8, 0x2du8, 0x38u8, 0x00u8]
}

/// Whether `name` — a NUL-terminated encoding identifier, terminator
/// included — is exactly `UTF-8`. The comparison is case-sensitive and whole:
/// no alias or prefix is recognized.
pub fn is_utf8_codeset(name: &[u8]) -> (r: bool)
    ensures
        r == (name@ == utf8_codeset_name()),
{
    if name.len() != 6 {
        proof {
            assert(name@ != utf8_codeset_name());
        }
        return false;
    }
    let r = name[0] == 0x55 && name[1] == 0x54 && name[2] == 0x46 && name[3] == 0x2d && name[4]
        == 0x38 && name[5] == 0x00;
    proof {
        if r {
            assert(name@ =~= utf8_codeset_name());
        }
    }
    r
}

/// The fast path, taken when the native encoding already is UTF-8: the lossy
/// rendering of the message, with no converter involved. Well-formed scalar
/// encodings pass through unchanged; every other byte is escaped.
pub fn render_utf8_native(msg: &[u8]) -> (out: Vec<u8>)
    ensures
        out@ == utf8_lossy_escaped(msg@),
        is_utf8(out@),
{
    let mut out: Vec<u8> = Vec::new();
    proof {
        assert(out@ + utf8_lossy_escaped(msg@) =~= utf8_lossy_escaped(msg@));
    }
    push_utf8_lossy(&mut out, msg);
    proof {
        lemma_lossy_utf8(msg@);
    }
    out
}

/// The degraded path, taken when no converter for the native encoding can be
/// opened: the whole message escaped byte by byte, with no decode attempted.
pub fn render_all_escaped(msg: &[u8]) -> (out: Vec<u8>)
    ensures
        out@ == escape_all_of(msg@),
        is_utf8(out@),
{
    let mut out: Vec<u8> = Vec::new();
    proof {
        assert(out@ + escape_all_of(msg@) =~= escape_all_of(msg@));
    }
    push_escape_all(&mut out, msg);
    proof {
        lemma_escape_all_utf8(msg@);
    }
    out
}

} // verus!
