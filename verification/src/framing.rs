//! Cutting a byte stream into lines.
//!
//! A line ends at a newline byte, which is not part of it. The bytes after
//! the last newline are kept until the stream delivers the rest of their
//! line; a stream that ends inside a line leaves them undelivered. Where the
//! chunks of the stream are cut makes no difference to the lines.

use vstd::prelude::*;
use vstd::utf8::{decode_utf8, valid_utf8};

verus! {

/// The byte that ends a line.
pub const NEWLINE: u8 = 0x0A;

/// The text that a line's bytes stand for when they are read as UTF-8 and
/// every invalid sequence among them is replaced by U+FFFD.
pub uninterp spec fn lossy_text(bytes: Seq<u8>) -> Seq<char>;

/// The texts of the lines.
pub open spec fn decoded(lines: Seq<Seq<u8>>) -> Seq<Seq<char>> {
    Seq::new(lines.len(), |i: int| lossy_text(lines[i]))
}

/// Calls `String::from_utf8_lossy` and takes the result as an owned string.
/// The text depends on the bytes alone; for bytes that are valid UTF-8 it is
/// the string that they encode. What the replacement of invalid sequences
/// yields is not stated here.
#[verifier::external_body]
fn decode_lossy(bytes: &[u8]) -> (text: String)
    ensures
        text@ == lossy_text(bytes@),
        valid_utf8(bytes@) ==> text@ == decode_utf8(bytes@),
{
    String::from_utf8_lossy(bytes).into_owned()
}

/// The text of a line: its bytes read as UTF-8, with U+FFFD in place of
/// every invalid sequence.
pub fn line_text(line: &[u8]) -> (text: String)
    ensures
        text@ == lossy_text(line@),
        valid_utf8(line@) ==> text@ == decode_utf8(line@),
{
    decode_lossy(line)
}

/// Index of the first newline in `s`; the length of `s` when it has none.
pub open spec fn first_newline(s: Seq<u8>) -> int
    decreases s.len(),
{
    if s.len() == 0 || s[0] == NEWLINE {
        0
    } else {
        1 + first_newline(s.drop_first())
    }
}

/// The lines of `s` that a newline ends, in order, each without its newline.
pub open spec fn complete_lines(s: Seq<u8>) -> Seq<Seq<u8>>
    decreases s.len(),
{
    let at = first_newline(s);
    if 0 <= at < s.len() {
        seq![s.subrange(0, at)] + complete_lines(s.subrange(at + 1, s.len() as int))
    } else {
        Seq::empty()
    }
}

/// What follows the last newline of `s`; all of `s` when it has none.
pub open spec fn remainder(s: Seq<u8>) -> Seq<u8>
    decreases s.len(),
{
    let at = first_newline(s);
    if 0 <= at < s.len() {
        remainder(s.subrange(at + 1, s.len() as int))
    } else {
        s
    }
}

/// No byte of `s` is a newline.
pub open spec fn newline_free(s: Seq<u8>) -> bool {
    forall|i: int| 0 <= i < s.len() ==> s[i] != NEWLINE
}

/// The lines, each followed by a newline, one after the other.
pub open spec fn join_lines(lines: Seq<Seq<u8>>) -> Seq<u8>
    decreases lines.len(),
{
    if lines.len() == 0 {
        Seq::empty()
    } else {
        join_lines(lines.drop_last()) + lines.last().push(NEWLINE)
    }
}

/// The chunks, one after the other.
pub open spec fn concat_chunks(chunks: Seq<Seq<u8>>) -> Seq<u8>
    decreases chunks.len(),
{
    if chunks.len() == 0 {
        Seq::empty()
    } else {
        concat_chunks(chunks.drop_last()) + chunks.last()
    }
}

/// The lines that a framer holding `pending` delivers when it is fed the
/// chunks one by one.
pub open spec fn lines_of_chunks(pending: Seq<u8>, chunks: Seq<Seq<u8>>) -> Seq<Seq<u8>>
    decreases chunks.len(),
{
    if chunks.len() == 0 {
        Seq::empty()
    } else {
        let before = chunks.drop_last();
        lines_of_chunks(pending, before) + complete_lines(
            pending_after_chunks(pending, before) + chunks.last(),
        )
    }
}

/// What a framer holding `pending` holds after it was fed the chunks one by
/// one.
pub open spec fn pending_after_chunks(pending: Seq<u8>, chunks: Seq<Seq<u8>>) -> Seq<u8>
    decreases chunks.len(),
{
    if chunks.len() == 0 {
        pending
    } else {
        remainder(pending_after_chunks(pending, chunks.drop_last()) + chunks.last())
    }
}

/// `first_newline` is a position in `s` or its length; no byte before it is a
/// newline, and the byte at it, if there is one, is.
pub proof fn lemma_first_newline(s: Seq<u8>)
    ensures
        0 <= first_newline(s) <= s.len(),
        newline_free(s.subrange(0, first_newline(s))),
        first_newline(s) < s.len() ==> s[first_newline(s)] == NEWLINE,
        newline_free(s) <==> first_newline(s) == s.len(),
    decreases s.len(),
{
    if s.len() == 0 || s[0] == NEWLINE {
    } else {
        let rest = s.drop_first();
        lemma_first_newline(rest);
        let at = first_newline(s);
        let head = s.subrange(0, at);
        assert forall|i: int| 0 <= i < head.len() implies head[i] != NEWLINE by {
            if i > 0 {
                assert(rest.subrange(0, first_newline(rest))[i - 1] == s[i]);
            }
        }
        if newline_free(s) {
            assert forall|i: int| 0 <= i < rest.len() implies rest[i] != NEWLINE by {
                assert(rest[i] == s[i + 1]);
            }
        }
        if at == s.len() {
            assert forall|i: int| 0 <= i < s.len() implies s[i] != NEWLINE by {
                if i > 0 {
                    assert(rest[i - 1] == s[i]);
                }
            }
        }
    }
}

/// A byte that is no newline joins the remainder and completes no line.
pub proof fn lemma_push_other(s: Seq<u8>, b: u8)
    requires
        b != NEWLINE,
    ensures
        complete_lines(s.push(b)) == complete_lines(s),
        remainder(s.push(b)) == remainder(s).push(b),
    decreases s.len(),
{
    let t = s.push(b);
    lemma_first_newline(s);
    lemma_first_newline(t);
    let at = first_newline(s);
    if at < s.len() {
        lemma_first_newline_extend(s, b);
        let rest = s.subrange(at + 1, s.len() as int);
        lemma_push_other(rest, b);
        assert(t.subrange(at + 1, t.len() as int) =~= rest.push(b));
        assert(t.subrange(0, at) =~= s.subrange(0, at));
    } else {
        assert(newline_free(t)) by {
            assert forall|i: int| 0 <= i < t.len() implies t[i] != NEWLINE by {
                if i < s.len() {
                    assert(t[i] == s[i]);
                }
            }
        }
    }
}

/// A newline completes the remainder as a line and leaves nothing pending.
pub proof fn lemma_push_newline(s: Seq<u8>)
    ensures
        complete_lines(s.push(NEWLINE)) == complete_lines(s).push(remainder(s)),
        remainder(s.push(NEWLINE)) == Seq::<u8>::empty(),
    decreases s.len(),
{
    let t = s.push(NEWLINE);
    lemma_first_newline(s);
    lemma_first_newline(t);
    let at = first_newline(s);
    if at < s.len() {
        lemma_first_newline_extend(s, NEWLINE);
        let rest = s.subrange(at + 1, s.len() as int);
        lemma_push_newline(rest);
        assert(t.subrange(at + 1, t.len() as int) =~= rest.push(NEWLINE));
        assert(t.subrange(0, at) =~= s.subrange(0, at));
        assert(seq![s.subrange(0, at)] + complete_lines(rest).push(remainder(rest)) =~= (
        seq![s.subrange(0, at)] + complete_lines(rest)).push(remainder(rest)));
    } else {
        assert(first_newline(t) == s.len()) by {
            lemma_first_newline_free_prefix(t, s.len() as int);
        }
        assert(t.subrange(0, s.len() as int) =~= s);
        let after = t.subrange(s.len() as int + 1, t.len() as int);
        assert(after =~= Seq::<u8>::empty());
        assert(complete_lines(after) =~= Seq::<Seq<u8>>::empty());
        assert(remainder(after) =~= Seq::<u8>::empty());
        assert(seq![s] + Seq::<Seq<u8>>::empty() =~= Seq::<Seq<u8>>::empty().push(s));
        assert(complete_lines(s) =~= Seq::<Seq<u8>>::empty());
    }
}

/// A first newline stays the first when bytes are appended.
proof fn lemma_first_newline_extend(s: Seq<u8>, b: u8)
    requires
        first_newline(s) < s.len(),
    ensures
        first_newline(s.push(b)) == first_newline(s),
    decreases s.len(),
{
    if s[0] == NEWLINE {
    } else {
        lemma_first_newline_extend(s.drop_first(), b);
        assert(s.push(b).drop_first() =~= s.drop_first().push(b));
    }
}

/// The first newline is at `k` when a newline stands there and none before.
proof fn lemma_first_newline_free_prefix(s: Seq<u8>, k: int)
    requires
        0 <= k < s.len(),
        s[k] == NEWLINE,
        newline_free(s.subrange(0, k)),
    ensures
        first_newline(s) == k,
    decreases k,
{
    if k == 0 {
    } else {
        assert(s.subrange(0, k)[0] == s[0]);
        let rest = s.drop_first();
        let head = rest.subrange(0, k - 1);
        assert forall|i: int| 0 <= i < head.len() implies head[i] != NEWLINE by {
            assert(s.subrange(0, k)[i + 1] == head[i]);
        }
        lemma_first_newline_free_prefix(rest, k - 1);
    }
}

/// Where a stream is cut in two makes no difference: the lines of the whole
/// are the lines of the first part, then the lines of what the first part
/// left pending followed by the second part.
pub proof fn lemma_cut_anywhere(a: Seq<u8>, b: Seq<u8>)
    ensures
        complete_lines(a + b) == complete_lines(a) + complete_lines(remainder(a) + b),
        remainder(a + b) == remainder(remainder(a) + b),
    decreases b.len(),
{
    if b.len() == 0 {
        assert(a + b =~= a);
        assert(remainder(a) + b =~= remainder(a));
        lemma_remainder_newline_free(a);
        lemma_newline_free_is_pending(remainder(a));
        assert(complete_lines(a) + Seq::<Seq<u8>>::empty() =~= complete_lines(a));
    } else {
        let front = b.drop_last();
        let x = b.last();
        lemma_cut_anywhere(a, front);
        assert(a + b =~= (a + front).push(x));
        assert(remainder(a) + b =~= (remainder(a) + front).push(x));
        if x == NEWLINE {
            lemma_push_newline(a + front);
            lemma_push_newline(remainder(a) + front);
            assert((complete_lines(a) + complete_lines(remainder(a) + front)).push(
                remainder(remainder(a) + front),
            ) =~= complete_lines(a) + complete_lines(remainder(a) + front).push(
                remainder(remainder(a) + front),
            ));
        } else {
            lemma_push_other(a + front, x);
            lemma_push_other(remainder(a) + front, x);
        }
    }
}

/// What is left pending holds no newline.
pub proof fn lemma_remainder_newline_free(s: Seq<u8>)
    ensures
        newline_free(remainder(s)),
    decreases s.len(),
{
    lemma_first_newline(s);
    let at = first_newline(s);
    if at < s.len() {
        lemma_remainder_newline_free(s.subrange(at + 1, s.len() as int));
    }
}

/// Bytes without a newline complete no line and stay pending as they are.
pub proof fn lemma_newline_free_is_pending(s: Seq<u8>)
    requires
        newline_free(s),
    ensures
        complete_lines(s) == Seq::<Seq<u8>>::empty(),
        remainder(s) == s,
{
    lemma_first_newline(s);
}

/// Framing loses nothing and invents nothing: the delivered lines, each with
/// its newline put back, followed by what is left pending, are the stream; no
/// delivered line and no pending byte holds a newline.
pub proof fn lemma_framing_is_lossless(s: Seq<u8>)
    ensures
        join_lines(complete_lines(s)) + remainder(s) == s,
        forall|i: int| 0 <= i < complete_lines(s).len() ==> newline_free(#[trigger] complete_lines(s)[i]),
        newline_free(remainder(s)),
    decreases s.len(),
{
    lemma_remainder_newline_free(s);
    if s.len() == 0 {
        lemma_newline_free_is_pending(s);
        assert(join_lines(complete_lines(s)) + remainder(s) =~= s);
    } else {
        let front = s.drop_last();
        let x = s.last();
        lemma_framing_is_lossless(front);
        assert(s =~= front.push(x));
        if x == NEWLINE {
            lemma_push_newline(front);
            let lines = complete_lines(front).push(remainder(front));
            assert(lines.drop_last() =~= complete_lines(front));
            assert(join_lines(lines) + Seq::<u8>::empty() =~= (join_lines(complete_lines(front))
                + remainder(front)).push(NEWLINE));
        } else {
            lemma_push_other(front, x);
            assert(join_lines(complete_lines(front)) + remainder(front).push(x) =~= (join_lines(
                complete_lines(front),
            ) + remainder(front)).push(x));
        }
    }
}

/// Chunk boundaries make no difference: a framer that starts empty and is
/// fed the chunks one by one delivers the lines of the whole stream, and
/// ends holding what the whole stream leaves pending.
pub proof fn lemma_chunking_is_invisible(chunks: Seq<Seq<u8>>)
    ensures
        lines_of_chunks(Seq::empty(), chunks) == complete_lines(concat_chunks(chunks)),
        pending_after_chunks(Seq::empty(), chunks) == remainder(concat_chunks(chunks)),
    decreases chunks.len(),
{
    let none = Seq::<u8>::empty();
    if chunks.len() == 0 {
        lemma_newline_free_is_pending(none);
    } else {
        let before = chunks.drop_last();
        lemma_chunking_is_invisible(before);
        lemma_cut_anywhere(concat_chunks(before), chunks.last());
    }
}

/// Cuts a stream of bytes, delivered in chunks, into lines.
pub struct LineFramer {
    pending: Vec<u8>,
}

impl View for LineFramer {
    type V = Seq<u8>;

    /// The bytes of the line that no newline has ended yet.
    closed spec fn view(&self) -> Seq<u8> {
        self.pending@
    }
}

/// The lines as sequences of bytes.
pub open spec fn lines_view(lines: Seq<Vec<u8>>) -> Seq<Seq<u8>> {
    Seq::new(lines.len(), |i: int| lines[i]@)
}

impl LineFramer {
    #[verifier::type_invariant]
    spec fn holds_no_newline(self) -> bool {
        newline_free(self.pending@)
    }

    /// A framer at the start of a stream.
    pub fn new() -> (framer: Self)
        ensures
            framer@ == Seq::<u8>::empty(),
    {
        LineFramer { pending: Vec::new() }
    }

    /// The bytes received since the last newline.
    pub fn pending(&self) -> (bytes: &[u8])
        ensures
            bytes@ == self@,
            newline_free(self@),
    {
        proof {
            use_type_invariant(self);
        }
        self.pending.as_slice()
    }

    /// Takes the next chunk of the stream and returns the lines that it
    /// completes, in order, each without its newline. The bytes after the
    /// last newline stay pending.
    pub fn push(&mut self, chunk: &[u8]) -> (lines: Vec<Vec<u8>>)
        ensures
            lines_view(lines@) == complete_lines(old(self)@ + chunk@),
            final(self)@ == remainder(old(self)@ + chunk@),
    {
        proof {
            use_type_invariant(&*self);
            lemma_newline_free_is_pending(self.pending@);
        }
        let ghost start = self.pending@;
        let mut lines: Vec<Vec<u8>> = Vec::new();
        let mut current: Vec<u8> = Vec::new();
        std::mem::swap(&mut current, &mut self.pending);
        let mut i: usize = 0;
        assert(start + chunk@.take(0) =~= start);
        assert(lines_view(lines@) =~= Seq::<Seq<u8>>::empty());
        while i < chunk.len()
            invariant
                i <= chunk.len(),
                self.pending@ == Seq::<u8>::empty(),
                lines_view(lines@) == complete_lines(start + chunk@.take(i as int)),
                current@ == remainder(start + chunk@.take(i as int)),
            decreases chunk.len() - i,
        {
            let b: u8 = chunk[i];
            let ghost seen = start + chunk@.take(i as int);
            proof {
                assert(start + chunk@.take(i + 1) =~= seen.push(b));
            }
            if b == NEWLINE {
                proof {
                    lemma_push_newline(seen);
                }
                let mut line: Vec<u8> = Vec::new();
                std::mem::swap(&mut line, &mut current);
                let ghost before = lines@;
                lines.push(line);
                assert(lines_view(lines@) =~= lines_view(before).push(remainder(seen)));
            } else {
                proof {
                    lemma_push_other(seen, b);
                }
                current.push(b);
            }
            i += 1;
        }
        proof {
            assert(chunk@.take(chunk.len() as int) =~= chunk@);
            lemma_remainder_newline_free(start + chunk@);
        }
        self.pending = current;
        lines
    }

    /// Ends the stream. A line that no newline ended is dropped, not
    /// delivered; the dropped bytes are returned.
    pub fn finish(&mut self) -> (dropped: Vec<u8>)
        ensures
            dropped@ == old(self)@,
            final(self)@ == Seq::<u8>::empty(),
    {
        let mut dropped: Vec<u8> = Vec::new();
        std::mem::swap(&mut dropped, &mut self.pending);
        dropped
    }
}

} // verus!
