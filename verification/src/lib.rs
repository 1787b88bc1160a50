//! Streaming splitter for byte sources.
//!
//! A byte stream is cut into the non-empty chunks that lie between
//! occurrences of any of several delimiter byte sequences.  The delimiter
//! occurrences are located by an external multi-pattern matcher that reads
//! ahead through a shared growable buffer; this crate owns that buffer and
//! the segmentation logic that turns match positions into output chunks.
#![allow(unused_imports)]
use vstd::prelude::*;

pub mod grow;

use crate::grow::Grow;

verus! {

/// Relies on std::io::Error, the error type of the underlying byte source;
/// values of it are only carried through, never inspected.
#[verifier::external_type_specification]
#[verifier::external_body]
pub struct ExIoError(std::io::Error);

/// One pull from the external matcher's stream of match records: a delimiter
/// occurrence at cumulative byte offsets `[start, end)`, a read failure, or
/// the end of the stream.
pub enum MatchStep {
    Found { start: usize, end: usize },
    Failed(std::io::Error),
    Done,
}

/// The segmentation state of a splitting iteration: turns the matcher's
/// stream of match records into byte segments cut from the shared growable
/// buffer, delimiters discarded.
///
/// `pos` is the cumulative stream offset already emitted or discarded; it
/// always equals the number of bytes drained from the buffer's front.
pub struct SplitByIter {
    pos: usize,
}

impl SplitByIter {
    /// The cumulative stream offset of the next segment's first byte.
    pub closed spec fn cursor(&self) -> int {
        self.pos as int
    }

    pub fn new() -> (s: SplitByIter)
        ensures
            s.cursor() == 0,
    {
        SplitByIter { pos: 0 }
    }

    /// The cursor as a plain value, so that an unverified driver can check a
    /// match record against it before handing the record in.
    pub fn position(&self) -> (n: usize)
        ensures
            n as int == self.cursor(),
    {
        self.pos
    }

    /// One segmentation step, driven by the next record `step` pulled from
    /// the matcher over the same buffer `g`.
    ///
    /// On a match the bytes between the previous boundary and the match's
    /// start are the candidate segment (possibly empty); those bytes plus the
    /// delimiter's own are drained and the cursor moves to the match's end.
    /// When the match stream is exhausted the buffer's remaining tail is the
    /// final segment, or, if the tail is empty, the iteration is over
    /// (`None`).  A read failure is handed through with the buffer and the
    /// cursor untouched.
    pub fn _next<R>(&mut self, g: &mut Grow<R>, step: MatchStep) -> (r: Option<
        Result<Vec<u8>, std::io::Error>,
    >)
        requires
            old(g).wf(),
            match step {
                MatchStep::Found { start, end } => {
                    &&& old(self).cursor() == old(g).cursor()
                    &&& old(self).cursor() <= start <= end
                    &&& end - old(self).cursor() <= old(g).handed()
                },
                _ => true,
            },
        ensures
            final(g).wf(),
            final(g).history() == old(g).history(),
            final(g).source() == old(g).source(),
            match step {
                MatchStep::Found { start, end } => {
                    &&& (r matches Some(item) && item matches Ok(seg) && seg@ == old(
                        g,
                    ).window().subrange(0, start - old(self).cursor()))
                    &&& final(self).cursor() == end as int
                    &&& final(g).cursor() == end as int
                    &&& final(g).window() == old(g).window().subrange(
                        end - old(self).cursor(),
                        old(g).window().len() as int,
                    )
                    &&& final(g).handed() == old(g).handed() - (end - old(self).cursor())
                },
                MatchStep::Failed(e) => {
                    &&& (r matches Some(item) && item matches Err(e2) && e2 == e)
                    &&& *final(self) == *old(self)
                    &&& *final(g) == *old(g)
                },
                MatchStep::Done => {
                    &&& *final(self) == *old(self)
                    &&& final(g).window() == Seq::<u8>::empty()
                    &&& final(g).handed() == 0
                    &&& final(g).released() == old(g).history()
                    &&& (old(g).window().len() == 0 ==> r is None)
                    &&& (old(g).window().len() > 0 ==> (r matches Some(item) && item matches Ok(
                        seg,
                    ) && seg@ == old(g).window()))
                },
            },
    {
        match step {
            MatchStep::Done => {
                let rest = g.drain_all();
                if rest.len() == 0 {
                    None
                } else {
                    Some(Ok(rest))
                }
            },
            MatchStep::Failed(err) => Some(Err(err)),
            MatchStep::Found { start, end } => {
                let pos = self.pos;
                let found = g.peek(start - pos);
                let len = end - pos;
                self.pos = self.pos + len;
                let _delims = g.drain(len);
                Some(Ok(found))
            },
        }
    }
}

/// The outer iteration's filtering rule: an empty segment (two delimiters
/// with nothing between them, or one at the stream's very edge) is skipped
/// and the iteration carries on; everything else — a non-empty segment, a
/// read failure, or the end of the sequence — is handed to the caller as is.
pub fn should_emit(item: &Option<Result<Vec<u8>, std::io::Error>>) -> (b: bool)
    ensures
        b == (match *item {
            Some(Result::Ok(seg)) => seg@.len() != 0,
            _ => true,
        }),
{
    match item {
        Some(Ok(seg)) => seg.len() != 0,
        Some(Err(_)) => true,
        None => true,
    }
}

/// The per-step contract speaks in window coordinates and the model below in
/// cumulative stream coordinates; the two agree.  The window is the history
/// past the cursor, so the bytes a match step cuts from the window's front
/// are exactly the stream bytes between the cursor and the match's start —
/// the model's next candidate segment.
pub proof fn lemma_candidate_from_window<R>(g: Grow<R>, start: int)
    requires
        g.cursor() <= start <= g.history().len(),
    ensures
        g.window().subrange(0, start - g.cursor()) == g.history().subrange(g.cursor(), start),
{
    assert(g.window().subrange(0, start - g.cursor()) =~= g.history().subrange(
        g.cursor(),
        start,
    ));
}

/// A delimiter occurrence: a half-open span of cumulative stream offsets.
pub ghost struct Span {
    pub start: int,
    pub end: int,
}

/// The match records are ordered, non-overlapping, and lie between `pos` and
/// `end`: each span starts no earlier than the previous one ended.
pub open spec fn spans_valid(ms: Seq<Span>, pos: int, end: int) -> bool
    decreases ms.len(),
{
    ms.len() == 0 || {
        &&& pos <= ms[0].start
        &&& ms[0].start <= ms[0].end
        &&& ms[0].end <= end
        &&& spans_valid(ms.drop_first(), ms[0].end, end)
    }
}

/// The candidate segments of `input` from offset `pos` on, cut at the given
/// delimiter spans: the bytes before each span, and finally the tail after
/// the last span.  Candidates may be empty; always one more than there are
/// spans.
pub open spec fn raw_segments(input: Seq<u8>, ms: Seq<Span>, pos: int) -> Seq<Seq<u8>>
    decreases ms.len(),
{
    if ms.len() == 0 {
        seq![input.subrange(pos, input.len() as int)]
    } else {
        seq![input.subrange(pos, ms[0].start)] + raw_segments(input, ms.drop_first(), ms[0].end)
    }
}

/// The bytes of each delimiter occurrence, in order.
pub open spec fn delimiter_bytes(input: Seq<u8>, ms: Seq<Span>) -> Seq<Seq<u8>> {
    ms.map_values(|m: Span| input.subrange(m.start, m.end))
}

/// Concatenation in stream order: a segment, a delimiter, a segment, ...,
/// ending with the final segment.
pub open spec fn interleave(segs: Seq<Seq<u8>>, delims: Seq<Seq<u8>>) -> Seq<u8>
    decreases delims.len(),
{
    if segs.len() == 0 {
        Seq::empty()
    } else if delims.len() == 0 {
        segs[0]
    } else {
        segs[0] + delims[0] + interleave(segs.drop_first(), delims.drop_first())
    }
}

/// The segments the splitter actually yields: the candidates with the empty
/// ones suppressed.
pub open spec fn segments(input: Seq<u8>, ms: Seq<Span>, pos: int) -> Seq<Seq<u8>> {
    raw_segments(input, ms, pos).filter(|s: Seq<u8>| s.len() > 0)
}

pub proof fn lemma_raw_segments_len(input: Seq<u8>, ms: Seq<Span>, pos: int)
    ensures
        raw_segments(input, ms, pos).len() == ms.len() + 1,
    decreases ms.len(),
{
    if ms.len() > 0 {
        lemma_raw_segments_len(input, ms.drop_first(), ms[0].end);
    }
}

/// Splitting loses nothing: the candidate segments and the delimiter
/// occurrences, concatenated in stream order, reconstruct the input exactly.
/// Since empty candidates contribute nothing to a concatenation, the same
/// holds of the yielded segments.
pub proof fn lemma_split_rejoins_input(input: Seq<u8>, ms: Seq<Span>, pos: int)
    requires
        0 <= pos <= input.len(),
        spans_valid(ms, pos, input.len() as int),
    ensures
        interleave(raw_segments(input, ms, pos), delimiter_bytes(input, ms)) == input.subrange(
            pos,
            input.len() as int,
        ),
    decreases ms.len(),
{
    let segs = raw_segments(input, ms, pos);
    let delims = delimiter_bytes(input, ms);
    if ms.len() == 0 {
        assert(delims.len() == 0);
    } else {
        let m = ms[0];
        let rest = ms.drop_first();
        lemma_split_rejoins_input(input, rest, m.end);
        lemma_raw_segments_len(input, ms, pos);
        assert(segs.drop_first() =~= raw_segments(input, rest, m.end));
        assert(delims.drop_first() =~= delimiter_bytes(input, rest));
        assert(interleave(segs, delims) == input.subrange(pos, m.start) + input.subrange(
            m.start,
            m.end,
        ) + input.subrange(m.end, input.len() as int));
        assert(input.subrange(pos, m.start) + input.subrange(m.start, m.end) + input.subrange(
            m.end,
            input.len() as int,
        ) =~= input.subrange(pos, input.len() as int));
    }
}

/// Removing the empty chunks from a concatenation does not change it: the
/// yielded segments concatenate to the same bytes as all the candidates.
pub proof fn lemma_concat_skips_empty_segments(ss: Seq<Seq<u8>>)
    ensures
        ss.filter(|s: Seq<u8>| s.len() > 0).flatten() == ss.flatten(),
    decreases ss.len(),
{
    broadcast use Seq::lemma_filter_push;
    broadcast use Seq::lemma_flatten_push;

    reveal(Seq::filter);
    let p = |s: Seq<u8>| s.len() > 0;
    if ss.len() == 0 {
    } else {
        let t = ss.drop_last();
        let x = ss.last();
        lemma_concat_skips_empty_segments(t);
        assert(ss =~= t.push(x));
        if p(x) {
            assert(t.push(x).flatten() =~= t.flatten() + x);
            assert(t.filter(p).push(x).flatten() =~= t.filter(p).flatten() + x);
        } else {
            assert(x.len() == 0);
            assert(t.push(x).flatten() =~= t.flatten() + x);
            assert(t.flatten() + x =~= t.flatten());
        }
    }
}

/// No yielded segment is empty, whatever the input and the delimiter spans:
/// leading, trailing and consecutive delimiters leave only empty candidates,
/// and those are all suppressed.
pub proof fn lemma_segments_nonempty(input: Seq<u8>, ms: Seq<Span>, pos: int)
    ensures
        forall|i: int|
            0 <= i < segments(input, ms, pos).len() ==> #[trigger] segments(
                input,
                ms,
                pos,
            )[i].len() > 0,
{
    let raw = raw_segments(input, ms, pos);
    let p = |s: Seq<u8>| s.len() > 0;
    assert forall|i: int| 0 <= i < raw.filter(p).len() implies #[trigger] raw.filter(
        p,
    )[i].len() > 0 by {
        raw.lemma_filter_pred(p, i);
    }
}

/// An input with no delimiter occurrence yields exactly one segment: the
/// whole input.
pub proof fn lemma_no_match_whole_input(input: Seq<u8>)
    requires
        input.len() > 0,
    ensures
        segments(input, Seq::<Span>::empty(), 0) == seq![input],
{
    broadcast use Seq::lemma_filter_push;

    reveal(Seq::filter);
    let p = |s: Seq<u8>| s.len() > 0;
    let raw = raw_segments(input, Seq::<Span>::empty(), 0);
    assert(input.subrange(0, input.len() as int) =~= input);
    assert(raw =~= Seq::<Seq<u8>>::empty().push(input));
    assert(Seq::<Seq<u8>>::empty().filter(p) == Seq::<Seq<u8>>::empty());
    assert(raw.filter(p) =~= seq![input]);
}

/// Every candidate cut from an already-exhausted input position is empty.
proof fn lemma_tail_candidates_empty(input: Seq<u8>, ms: Seq<Span>, pos: int)
    requires
        pos == input.len(),
        spans_valid(ms, pos, input.len() as int),
    ensures
        forall|i: int|
            0 <= i < raw_segments(input, ms, pos).len() ==> #[trigger] raw_segments(
                input,
                ms,
                pos,
            )[i].len() == 0,
    decreases ms.len(),
{
    let raw = raw_segments(input, ms, pos);
    if ms.len() > 0 {
        let rest = raw_segments(input, ms.drop_first(), ms[0].end);
        lemma_tail_candidates_empty(input, ms.drop_first(), ms[0].end);
        assert forall|i: int| 0 <= i < raw.len() implies #[trigger] raw[i].len() == 0 by {
            if i > 0 {
                assert(raw[i] == rest[i - 1]);
            }
        }
    }
}

/// A filter that rejects every element of a sequence leaves nothing.
proof fn lemma_filter_rejects_all<A>(s: Seq<A>, p: spec_fn(A) -> bool)
    requires
        forall|i: int| 0 <= i < s.len() ==> !p(#[trigger] s[i]),
    ensures
        s.filter(p).len() == 0,
    decreases s.len(),
{
    reveal(Seq::filter);
    if s.len() > 0 {
        lemma_filter_rejects_all(s.drop_last(), p);
    }
}

/// Empty input yields zero segments, whatever (necessarily zero-width)
/// delimiter occurrences are reported in it.
pub proof fn lemma_empty_input_no_segments(ms: Seq<Span>)
    requires
        spans_valid(ms, 0, 0),
    ensures
        segments(Seq::<u8>::empty(), ms, 0).len() == 0,
{
    let input = Seq::<u8>::empty();
    lemma_tail_candidates_empty(input, ms, 0);
    lemma_filter_rejects_all(raw_segments(input, ms, 0), |s: Seq<u8>| s.len() > 0);
}

/// An input that is exactly one delimiter occurrence yields zero segments.
pub proof fn lemma_whole_input_delimiter_no_segments(input: Seq<u8>)
    ensures
        segments(input, seq![(Span { start: 0, end: input.len() as int })], 0).len() == 0,
{
    let ms = seq![(Span { start: 0, end: input.len() as int })];
    let raw = raw_segments(input, ms, 0);
    assert(ms.drop_first() =~= Seq::<Span>::empty());
    assert(raw.len() == 2) by {
        lemma_raw_segments_len(input, ms, 0);
    }
    assert(raw[0].len() == 0);
    let tail = raw_segments(input, Seq::<Span>::empty(), input.len() as int);
    assert(raw[1] == tail[0]);
    assert(raw[1].len() == 0);
    lemma_filter_rejects_all(raw, |s: Seq<u8>| s.len() > 0);
}

} // verus!
