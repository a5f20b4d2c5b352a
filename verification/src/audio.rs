//! Audio-side logic: timestamps, chunking of sample streams, and the
//! segments that the speech recogniser reports.

use vstd::prelude::*;
use crate::text::{decimal, pad2, push_decimal, push_pad2, trim, trimmed};

verus! {

/// The text `HH:MM:SS.CC` for a duration given in centiseconds: hours,
/// minutes, seconds and centiseconds, each zero-padded to two digits (hours
/// take more digits once they reach 100).
pub open spec fn duration_text(centiseconds: nat) -> Seq<char> {
    let total_secs = centiseconds / 100;
    pad2(total_secs / 3600) + seq![':'] + pad2((total_secs % 3600) / 60) + seq![':']
        + pad2(total_secs % 60) + seq!['.'] + pad2(centiseconds % 100)
}

/// Renders a duration given in centiseconds as `HH:MM:SS.CC`.
pub fn to_duration_format(centiseconds: u64) -> (r: String)
    ensures
        r@ == duration_text(centiseconds as nat),
{
    let total_secs = centiseconds / 100;
    let cs = centiseconds % 100;
    let hours = total_secs / 3600;
    let minutes = (total_secs % 3600) / 60;
    let seconds = total_secs % 60;

    proof {
        reveal_strlit(":");
        reveal_strlit(".");
    }
    let mut out = String::new();
    push_pad2(&mut out, hours);
    out.append(":");
    push_pad2(&mut out, minutes);
    out.append(":");
    push_pad2(&mut out, seconds);
    out.append(".");
    push_pad2(&mut out, cs);
    out
}

} // verus!

verus! {

/// A window of the sample stream, with the index of its first sample in the
/// whole stream.
#[derive(Debug, Clone, PartialEq)]
pub struct AudioChunk<T> {
    pub start_sample_offset: usize,
    pub samples: Vec<T>,
}

/// Number of samples in a full chunk.
pub open spec fn chunk_size(sample_rate: u32, chunk_duration_seconds: u32) -> int {
    sample_rate as int * chunk_duration_seconds as int
}

/// Number of samples that a chunk shares with the next one, as requested:
/// the overlap, capped at the chunk duration.
pub open spec fn chunk_overlap(sample_rate: u32, chunk_duration_seconds: u32, overlap_seconds: u32) -> int {
    let capped = if overlap_seconds <= chunk_duration_seconds {
        overlap_seconds
    } else {
        chunk_duration_seconds
    };
    sample_rate as int * capped as int
}

/// Distance between the starts of consecutive chunks: chunk size less the
/// overlap, and at least one sample.
pub open spec fn chunk_step(sample_rate: u32, chunk_duration_seconds: u32, overlap_seconds: u32) -> int {
    let d = chunk_size(sample_rate, chunk_duration_seconds) - chunk_overlap(
        sample_rate,
        chunk_duration_seconds,
        overlap_seconds,
    );
    if d >= 1 {
        d
    } else {
        1
    }
}

/// End (exclusive) of the window that starts at `start`.
pub open spec fn window_end(start: int, size: int, n: int) -> int {
    if start + size <= n {
        start + size
    } else {
        n
    }
}

/// `chunks` are the windows of `samples` of `size` samples that start every
/// `step` samples from the beginning, up to and including the first window
/// that reaches the end of the stream (which may be shorter).
pub open spec fn is_windowing<T>(chunks: Seq<AudioChunk<T>>, samples: Seq<T>, size: int, step: int) -> bool {
    let n = samples.len() as int;
    &&& chunks.len() >= 1
    &&& forall|i: int| 0 <= i < chunks.len() ==> #[trigger] chunks[i].start_sample_offset == i * step
    &&& forall|i: int|
        0 <= i < chunks.len() ==> #[trigger] chunks[i].samples@ == samples.subrange(
            i * step,
            window_end(i * step, size, n),
        )
    &&& forall|i: int| 0 <= i < chunks.len() - 1 ==> #[trigger] (i * step) + size < n
    &&& (chunks.len() - 1) * step + size >= n
}

/// What `chunk_samples` returns: nothing for an empty stream; the whole
/// stream as one chunk where the sample rate or the chunk duration is zero;
/// otherwise the overlapping windows of `is_windowing`.
pub open spec fn is_chunking<T>(
    chunks: Seq<AudioChunk<T>>,
    samples: Seq<T>,
    sample_rate: u32,
    chunk_duration_seconds: u32,
    overlap_seconds: u32,
) -> bool {
    if samples.len() == 0 {
        chunks.len() == 0
    } else if sample_rate == 0 || chunk_duration_seconds == 0 {
        &&& chunks.len() == 1
        &&& chunks[0].start_sample_offset == 0
        &&& chunks[0].samples@ == samples
    } else {
        is_windowing(
            chunks,
            samples,
            chunk_size(sample_rate, chunk_duration_seconds),
            chunk_step(sample_rate, chunk_duration_seconds, overlap_seconds),
        )
    }
}

proof fn lemma_step_times(i: int, step: int)
    ensures
        (i + 1) * step == i * step + step,
{
    assert((i + 1) * step == i * step + step) by (nonlinear_arith);
}

/// Splits `samples` into windows of `chunk_duration_seconds` seconds at
/// `sample_rate` samples per second, consecutive windows sharing
/// `overlap_seconds` seconds; the last window ends at the end of the stream.
pub fn chunk_samples<T: Copy>(
    samples: &[T],
    sample_rate: u32,
    chunk_duration_seconds: u32,
    overlap_seconds: u32,
) -> (chunks: Vec<AudioChunk<T>>)
    ensures
        is_chunking(chunks@, samples@, sample_rate, chunk_duration_seconds, overlap_seconds),
{
    let n = samples.len();
    if n == 0 {
        return Vec::new();
    }
    if sample_rate == 0 || chunk_duration_seconds == 0 {
        let whole = AudioChunk { start_sample_offset: 0, samples: vstd::slice::slice_to_vec(samples) };
        let mut chunks = Vec::new();
        chunks.push(whole);
        return chunks;
    }
    assert(sample_rate as u64 * chunk_duration_seconds as u64 <= 0xffff_fffe_0000_0001) by (nonlinear_arith)
        requires
            sample_rate <= 0xffff_ffff,
            chunk_duration_seconds <= 0xffff_ffff,
    ;
    let size64: u64 = sample_rate as u64 * chunk_duration_seconds as u64;
    let capped: u32 = if overlap_seconds <= chunk_duration_seconds {
        overlap_seconds
    } else {
        chunk_duration_seconds
    };
    assert(sample_rate as u64 * capped as u64 <= 0xffff_fffe_0000_0001) by (nonlinear_arith)
        requires
            sample_rate <= 0xffff_ffff,
            capped <= 0xffff_ffff,
    ;
    let overlap64: u64 = sample_rate as u64 * capped as u64;
    assert(overlap64 <= size64) by (nonlinear_arith)
        requires
            overlap64 == sample_rate as u64 * capped as u64,
            size64 == sample_rate as u64 * chunk_duration_seconds as u64,
            capped <= chunk_duration_seconds,
    ;
    let step64: u64 = if size64 - overlap64 >= 1 {
        size64 - overlap64
    } else {
        1
    };
    assert(size64 >= 1) by (nonlinear_arith)
        requires
            size64 == sample_rate as u64 * chunk_duration_seconds as u64,
            sample_rate > 0,
            chunk_duration_seconds > 0,
    ;
    let ghost size = chunk_size(sample_rate, chunk_duration_seconds);
    let ghost step = chunk_step(sample_rate, chunk_duration_seconds, overlap_seconds);
    assert(size64 == size && step64 == step);
    let mut chunks: Vec<AudioChunk<T>> = Vec::new();
    if size64 >= n as u64 {
        let whole = AudioChunk { start_sample_offset: 0, samples: vstd::slice::slice_to_vec(samples) };
        chunks.push(whole);
        proof {
            assert(0 * step == 0);
            assert(samples@.subrange(0, n as int) =~= samples@);
        }
        return chunks;
    }
    assert(n as u64 == n);
    let size: usize = size64 as usize;
    let step: usize = step64 as usize;
    let mut start: usize = 0;
    loop
        invariant_except_break
            start < n,
            start == chunks@.len() * step,
            forall|i: int| 0 <= i < chunks@.len() ==> #[trigger] (i * step) + size < n,
        invariant
            n == samples@.len(),
            size == chunk_size(sample_rate, chunk_duration_seconds),
            step == chunk_step(sample_rate, chunk_duration_seconds, overlap_seconds),
            1 <= step <= size < n,
            forall|i: int|
                0 <= i < chunks@.len() ==> #[trigger] chunks@[i].start_sample_offset == i * step,
            forall|i: int|
                0 <= i < chunks@.len() ==> #[trigger] chunks@[i].samples@ == samples@.subrange(
                    i * step,
                    window_end(i * step, size as int, n as int),
                ),
        ensures
            is_windowing(chunks@, samples@, size as int, step as int),
        decreases n - start,
    {
        let end: usize = if n - start <= size {
            n
        } else {
            start + size
        };
        let window = AudioChunk {
            start_sample_offset: start,
            samples: vstd::slice::slice_to_vec(vstd::slice::slice_subrange(samples, start, end)),
        };
        let ghost old_chunks = chunks@;
        chunks.push(window);
        proof {
            let k = old_chunks.len() as int;
            assert(chunks@[k].start_sample_offset == start);
            assert(k * step == start);
            assert(end == window_end(start as int, size as int, n as int));
            assert(chunks@[k].samples@ == samples@.subrange(start as int, end as int));
            assert forall|i: int| 0 <= i < chunks@.len() implies #[trigger] chunks@[i].start_sample_offset
                == i * step by {
                if i < old_chunks.len() {
                    assert(chunks@[i] == old_chunks[i]);
                }
            }
            assert forall|i: int| 0 <= i < chunks@.len() implies #[trigger] chunks@[i].samples@
                == samples@.subrange(i * step, window_end(i * step, size as int, n as int)) by {
                if i < old_chunks.len() {
                    assert(chunks@[i] == old_chunks[i]);
                }
            }
        }
        if end == n {
            proof {
                assert forall|i: int| 0 <= i < chunks@.len() - 1 implies #[trigger] (i * step) + size < n by {
                    assert(i < old_chunks.len());
                }
            }
            break;
        }
        proof {
            lemma_step_times(old_chunks.len() as int, step as int);
            assert forall|i: int| 0 <= i < chunks@.len() implies #[trigger] (i * step) + size < n by {
                if i < old_chunks.len() {
                } else {
                    assert(i == old_chunks.len());
                }
            }
        }
        start = start + step;
    }
    chunks
}

} // verus!

verus! {

/// A piece of recognised speech, with its start and end on the audio
/// timeline in centiseconds.
#[derive(Debug, Clone, PartialEq, Eq)]
pub struct TranscriptionSegment {
    pub start_timestamp: u64,
    pub end_timestamp: u64,
    pub text: String,
}

/// `shifted` is `segments` with both timestamps of every segment moved
/// `offset` centiseconds later and the texts unchanged.
pub open spec fn is_offset_of(
    shifted: Seq<TranscriptionSegment>,
    segments: Seq<TranscriptionSegment>,
    offset: int,
) -> bool {
    &&& shifted.len() == segments.len()
    &&& forall|i: int|
        0 <= i < segments.len() ==> #[trigger] shifted[i].start_timestamp
            == segments[i].start_timestamp + offset
    &&& forall|i: int|
        0 <= i < segments.len() ==> #[trigger] shifted[i].end_timestamp == segments[i].end_timestamp
            + offset
    &&& forall|i: int| 0 <= i < segments.len() ==> #[trigger] shifted[i].text == segments[i].text
}

/// Moves every segment `offset_centiseconds` later on the timeline, as when
/// the segments of a chunk are placed on the timeline of the whole audio.
pub fn offset_segments(
    segments: &[TranscriptionSegment],
    offset_centiseconds: u64,
) -> (shifted: Vec<TranscriptionSegment>)
    requires
        forall|i: int|
            0 <= i < segments@.len() ==> #[trigger] segments@[i].start_timestamp
                + offset_centiseconds <= u64::MAX && segments@[i].end_timestamp
                + offset_centiseconds <= u64::MAX,
    ensures
        is_offset_of(shifted@, segments@, offset_centiseconds as int),
{
    let mut shifted: Vec<TranscriptionSegment> = Vec::new();
    let n = segments.len();
    for k in 0..n
        invariant
            n == segments@.len(),
            forall|i: int|
                0 <= i < segments@.len() ==> #[trigger] segments@[i].start_timestamp
                    + offset_centiseconds <= u64::MAX && segments@[i].end_timestamp
                    + offset_centiseconds <= u64::MAX,
            shifted@.len() == k,
            forall|i: int|
                0 <= i < k ==> #[trigger] shifted@[i].start_timestamp
                    == segments@[i].start_timestamp + offset_centiseconds,
            forall|i: int|
                0 <= i < k ==> #[trigger] shifted@[i].end_timestamp == segments@[i].end_timestamp
                    + offset_centiseconds,
            forall|i: int| 0 <= i < k ==> #[trigger] shifted@[i].text == segments@[i].text,
    {
        let segment = &segments[k];
        assert(segments@[k as int].start_timestamp + offset_centiseconds <= u64::MAX);
        shifted.push(
            TranscriptionSegment {
                start_timestamp: segment.start_timestamp + offset_centiseconds,
                end_timestamp: segment.end_timestamp + offset_centiseconds,
                text: segment.text.clone(),
            },
        );
    }
    shifted
}

/// Offsetting by `a` and then by `b` is offsetting by `a + b`.
pub proof fn lemma_offsets_compose(
    segments: Seq<TranscriptionSegment>,
    once: Seq<TranscriptionSegment>,
    twice: Seq<TranscriptionSegment>,
    a: int,
    b: int,
)
    requires
        is_offset_of(once, segments, a),
        is_offset_of(twice, once, b),
    ensures
        is_offset_of(twice, segments, a + b),
{
    assert forall|i: int| 0 <= i < segments.len() implies #[trigger] twice[i].start_timestamp
        == segments[i].start_timestamp + (a + b) by {
        assert(once[i].start_timestamp == segments[i].start_timestamp + a);
        assert(twice[i].start_timestamp == once[i].start_timestamp + b);
    }
    assert forall|i: int| 0 <= i < segments.len() implies #[trigger] twice[i].end_timestamp
        == segments[i].end_timestamp + (a + b) by {
        assert(once[i].end_timestamp == segments[i].end_timestamp + a);
        assert(twice[i].end_timestamp == once[i].end_timestamp + b);
    }
    assert forall|i: int| 0 <= i < segments.len() implies #[trigger] twice[i].text
        == segments[i].text by {
        assert(once[i].text == segments[i].text);
        assert(twice[i].text == once[i].text);
    }
}

/// Offsetting by zero leaves the segments as they were.
pub proof fn lemma_offset_zero_is_identity(
    segments: Seq<TranscriptionSegment>,
    shifted: Seq<TranscriptionSegment>,
)
    requires
        is_offset_of(shifted, segments, 0),
    ensures
        shifted == segments,
{
    assert forall|i: int| 0 <= i < segments.len() implies shifted[i] == segments[i] by {
        assert(shifted[i].start_timestamp == segments[i].start_timestamp + 0);
        assert(shifted[i].end_timestamp == segments[i].end_timestamp + 0);
        assert(shifted[i].text == segments[i].text);
    }
    assert(shifted =~= segments);
}

} // verus!

verus! {

proof fn lemma_step_within_size(sample_rate: u32, chunk_duration_seconds: u32, overlap_seconds: u32)
    requires
        sample_rate > 0,
        chunk_duration_seconds > 0,
    ensures
        1 <= chunk_step(sample_rate, chunk_duration_seconds, overlap_seconds) <= chunk_size(
            sample_rate,
            chunk_duration_seconds,
        ),
        0 <= chunk_overlap(sample_rate, chunk_duration_seconds, overlap_seconds) <= chunk_size(
            sample_rate,
            chunk_duration_seconds,
        ),
{
    let capped = if overlap_seconds <= chunk_duration_seconds {
        overlap_seconds
    } else {
        chunk_duration_seconds
    };
    assert(sample_rate as int * capped as int <= sample_rate as int * chunk_duration_seconds as int)
        by (nonlinear_arith)
        requires
            capped <= chunk_duration_seconds,
    ;
    assert(sample_rate as int * chunk_duration_seconds as int >= 1) by (nonlinear_arith)
        requires
            sample_rate > 0,
            chunk_duration_seconds > 0,
    ;
    assert(sample_rate as int * capped as int >= 0) by (nonlinear_arith);
}

/// Every sample of the stream lies in some chunk: chunking loses nothing.
pub proof fn lemma_chunks_cover_samples<T>(
    chunks: Seq<AudioChunk<T>>,
    samples: Seq<T>,
    sample_rate: u32,
    chunk_duration_seconds: u32,
    overlap_seconds: u32,
    j: int,
)
    requires
        is_chunking(chunks, samples, sample_rate, chunk_duration_seconds, overlap_seconds),
        0 <= j < samples.len(),
    ensures
        exists|i: int|
            0 <= i < chunks.len() && #[trigger] chunks[i].start_sample_offset <= j
                < chunks[i].start_sample_offset + chunks[i].samples@.len(),
{
    if sample_rate == 0 || chunk_duration_seconds == 0 {
        assert(chunks[0].start_sample_offset <= j < chunks[0].start_sample_offset
            + chunks[0].samples@.len());
    } else {
        let size = chunk_size(sample_rate, chunk_duration_seconds);
        let step = chunk_step(sample_rate, chunk_duration_seconds, overlap_seconds);
        let n = samples.len() as int;
        lemma_step_within_size(sample_rate, chunk_duration_seconds, overlap_seconds);
        let q = j / step;
        assert(q * step <= j < q * step + step && q >= 0) by (nonlinear_arith)
            requires
                step >= 1,
                j >= 0,
                q == j / step,
        ;
        let last = chunks.len() - 1;
        if q <= last {
            assert(chunks[q].start_sample_offset == q * step);
            assert(chunks[q].samples@ == samples.subrange(q * step, window_end(q * step, size, n)));
            assert(chunks[q].start_sample_offset <= j < chunks[q].start_sample_offset
                + chunks[q].samples@.len());
        } else {
            assert(last * step <= q * step) by (nonlinear_arith)
                requires
                    last <= q,
                    step >= 1,
            ;
            assert(chunks[last].start_sample_offset == last * step);
            assert(chunks[last].samples@ == samples.subrange(
                last * step,
                window_end(last * step, size, n),
            ));
            assert(chunks[last].start_sample_offset <= j < chunks[last].start_sample_offset
                + chunks[last].samples@.len());
        }
    }
}

/// The chunks follow the stream: the first starts at its beginning, the last
/// ends at its end, and each chunk but the last is a full window whose
/// successor starts one step later, so that consecutive chunks share
/// `chunk_size - chunk_step` samples (the requested overlap, where that is
/// shorter than a chunk).
pub proof fn lemma_chunks_follow_stream<T>(
    chunks: Seq<AudioChunk<T>>,
    samples: Seq<T>,
    sample_rate: u32,
    chunk_duration_seconds: u32,
    overlap_seconds: u32,
    i: int,
)
    requires
        is_chunking(chunks, samples, sample_rate, chunk_duration_seconds, overlap_seconds),
        samples.len() > 0,
        0 <= i < chunks.len(),
    ensures
        chunks[0].start_sample_offset == 0,
        chunks.last().start_sample_offset + chunks.last().samples@.len() == samples.len(),
        sample_rate > 0 && chunk_duration_seconds > 0 && i + 1 < chunks.len() ==> {
            &&& chunks[i].samples@.len() == chunk_size(sample_rate, chunk_duration_seconds)
            &&& chunks[i + 1].start_sample_offset == chunks[i].start_sample_offset + chunk_step(
                sample_rate,
                chunk_duration_seconds,
                overlap_seconds,
            )
            &&& chunks[i].start_sample_offset + chunks[i].samples@.len()
                - chunks[i + 1].start_sample_offset == chunk_size(sample_rate, chunk_duration_seconds)
                - chunk_step(sample_rate, chunk_duration_seconds, overlap_seconds)
            &&& chunk_overlap(sample_rate, chunk_duration_seconds, overlap_seconds) < chunk_size(
                sample_rate,
                chunk_duration_seconds,
            ) ==> chunk_size(sample_rate, chunk_duration_seconds) - chunk_step(
                sample_rate,
                chunk_duration_seconds,
                overlap_seconds,
            ) == chunk_overlap(sample_rate, chunk_duration_seconds, overlap_seconds)
        },
{
    if sample_rate == 0 || chunk_duration_seconds == 0 {
    } else {
        let size = chunk_size(sample_rate, chunk_duration_seconds);
        let step = chunk_step(sample_rate, chunk_duration_seconds, overlap_seconds);
        let n = samples.len() as int;
        lemma_step_within_size(sample_rate, chunk_duration_seconds, overlap_seconds);
        assert(0 * step == 0);
        assert(chunks[0].start_sample_offset == 0 * step);
        let last = chunks.len() - 1;
        assert(chunks[last].start_sample_offset == last * step);
        assert(chunks[last].samples@ == samples.subrange(last * step, window_end(last * step, size, n)));
        assert(last * step >= 0) by (nonlinear_arith)
            requires
                last >= 0,
                step >= 1,
        ;
        if last > 0 {
            lemma_step_times(last - 1, step);
            assert(((last - 1) * step) + size < n);
        } else {
            assert(last * step == 0);
        }
        assert(last * step <= n);
        if i + 1 < chunks.len() {
            lemma_step_times(i, step);
            assert(chunks[i].start_sample_offset == i * step);
            assert(chunks[i + 1].start_sample_offset == (i + 1) * step);
            assert((i * step) + size < n);
            assert(i * step >= 0) by (nonlinear_arith)
                requires
                    i >= 0,
                    step >= 1,
            ;
            assert(chunks[i].samples@ == samples.subrange(i * step, window_end(i * step, size, n)));
        }
    }
}

/// In numbers: with a positive sample rate and chunk duration, chunk `i`
/// starts `i` steps into the stream, a step being the chunk's
/// `sample_rate * chunk_duration_seconds` samples less the overlap
/// `sample_rate * min(overlap_seconds, chunk_duration_seconds)` (at least one
/// sample). So consecutive full chunks share exactly the requested overlap,
/// and with no overlap they start a whole chunk apart.
pub proof fn lemma_chunk_starts_in_samples<T>(
    chunks: Seq<AudioChunk<T>>,
    samples: Seq<T>,
    sample_rate: u32,
    chunk_duration_seconds: u32,
    overlap_seconds: u32,
    i: int,
)
    requires
        is_chunking(chunks, samples, sample_rate, chunk_duration_seconds, overlap_seconds),
        samples.len() > 0,
        sample_rate > 0,
        chunk_duration_seconds > 0,
        0 <= i < chunks.len(),
    ensures
        ({
            let shared: int = sample_rate as int * (if overlap_seconds <= chunk_duration_seconds {
                overlap_seconds as int
            } else {
                chunk_duration_seconds as int
            });
            let full: int = sample_rate as int * chunk_duration_seconds as int;
            let step: int = if full - shared >= 1 {
                full - shared
            } else {
                1
            };
            &&& chunks[i].start_sample_offset == i * step
            &&& i + 1 < chunks.len() ==> chunks[i].samples@.len() == full
            &&& i + 1 < chunks.len() && shared < full ==> chunks[i].start_sample_offset
                + chunks[i].samples@.len() - chunks[i + 1].start_sample_offset == shared
        }),
        overlap_seconds == 0 ==> chunks[i].start_sample_offset == i * (sample_rate as int
            * chunk_duration_seconds as int),
{
    lemma_chunks_follow_stream(
        chunks,
        samples,
        sample_rate,
        chunk_duration_seconds,
        overlap_seconds,
        i,
    );
    assert(sample_rate as int * 0int == 0) by (nonlinear_arith);
    assert(sample_rate as int * chunk_duration_seconds as int >= 1) by (nonlinear_arith)
        requires
            sample_rate > 0,
            chunk_duration_seconds > 0,
    ;
}

} // verus!

verus! {

/// The texts of `segments` joined with single spaces.
pub open spec fn joined_texts(segments: Seq<TranscriptionSegment>) -> Seq<char>
    decreases segments.len(),
{
    if segments.len() == 0 {
        Seq::empty()
    } else if segments.len() == 1 {
        segments[0].text@
    } else {
        joined_texts(segments.drop_last()) + seq![' '] + segments.last().text@
    }
}

/// The transcript of a run of segments: their texts joined with single
/// spaces.
pub fn join_segment_texts(segments: &[TranscriptionSegment]) -> (r: String)
    ensures
        r@ == joined_texts(segments@),
{
    let mut out = String::new();
    let n = segments.len();
    for k in 0..n
        invariant
            n == segments@.len(),
            out@ == joined_texts(segments@.take(k as int)),
    {
        let ghost t = segments@.take(k + 1);
        proof {
            assert(t.drop_last() =~= segments@.take(k as int));
            assert(t.last() == segments@[k as int]);
            assert(t.len() == k + 1);
            if k == 0 {
                assert(t[0] == segments@[0]);
            }
        }
        let ghost before = out@;
        if k > 0 {
            proof {
                reveal_strlit(" ");
            }
            out.append(" ");
            assert(out@ == before + seq![' ']);
        } else {
            assert(segments@.take(0) =~= Seq::<TranscriptionSegment>::empty());
        }
        let piece = segments[k].text.as_str();
        assert(piece@ == segments@[k as int].text@);
        out.append(piece);
        proof {
            if k > 0 {
                assert(joined_texts(t) == joined_texts(t.drop_last()) + seq![' '] + t.last().text@);
                assert(out@ =~= joined_texts(t));
            } else {
                assert(out@ =~= joined_texts(t));
            }
        }
    }
    assert(segments@.take(n as int) =~= segments@);
    out
}

/// Where the text of segment `k` starts in the joined transcript: after the
/// texts of the segments before it, each followed by one space.
pub open spec fn text_offset(segments: Seq<TranscriptionSegment>, k: int) -> int
    decreases k,
{
    if k <= 0 {
        0
    } else {
        text_offset(segments, k - 1) + segments[k - 1].text@.len() + 1
    }
}

proof fn lemma_text_offset_prefix(segments: Seq<TranscriptionSegment>, k: int)
    requires
        0 <= k < segments.len(),
    ensures
        text_offset(segments.drop_last(), k) == text_offset(segments, k),
    decreases k,
{
    if k > 0 {
        lemma_text_offset_prefix(segments, k - 1);
        assert(segments.drop_last()[k - 1] == segments[k - 1]);
    }
}

proof fn lemma_text_offset_grows(segments: Seq<TranscriptionSegment>, k: int, m: int)
    requires
        0 <= k <= m <= segments.len(),
    ensures
        0 <= text_offset(segments, k),
        k < m ==> text_offset(segments, k) + segments[k].text@.len() + 1 <= text_offset(
            segments,
            m,
        ),
    decreases m,
{
    if k < m {
        lemma_text_offset_grows(segments, k, m - 1);
    } else if k > 0 {
        lemma_text_offset_grows(segments, k - 1, k - 1);
    }
}

/// The joined transcript holds every segment's text, in order, each at its
/// offset, with exactly one space between consecutive texts and nothing
/// else: its length is the sum of the text lengths plus one less than the
/// number of segments.
pub proof fn lemma_joined_texts_layout(segments: Seq<TranscriptionSegment>)
    requires
        segments.len() >= 1,
    ensures
        joined_texts(segments).len() == text_offset(segments, segments.len() as int) - 1,
        forall|k: int, c: int|
            0 <= k < segments.len() && 0 <= c < segments[k].text@.len() ==> joined_texts(
                segments,
            )[text_offset(segments, k) + c] == #[trigger] segments[k].text@[c],
        forall|k: int|
            0 < k < segments.len() ==> joined_texts(segments)[#[trigger] text_offset(segments, k)
                - 1] == ' ',
    decreases segments.len(),
{
    let n = segments.len() as int;
    let j = joined_texts(segments);
    assert(text_offset(segments, n) == text_offset(segments, n - 1) + segments[n - 1].text@.len()
        + 1);
    if n == 1 {
        assert(text_offset(segments, 0) == 0);
    } else {
        let p = segments.drop_last();
        lemma_joined_texts_layout(p);
        let jp = joined_texts(p);
        assert(j == jp + seq![' '] + segments.last().text@);
        lemma_text_offset_prefix(segments, n - 1);
        assert(jp.len() == text_offset(segments, n - 1) - 1);
        assert forall|k: int, c: int|
            0 <= k < segments.len() && 0 <= c < segments[k].text@.len() implies j[text_offset(
                segments,
                k,
            ) + c] == #[trigger] segments[k].text@[c] by {
            if k < n - 1 {
                lemma_text_offset_prefix(segments, k);
                lemma_text_offset_grows(p, k, n - 1);
                assert(p[k] == segments[k]);
                assert(jp[text_offset(p, k) + c] == p[k].text@[c]);
                assert(j[text_offset(p, k) + c] == jp[text_offset(p, k) + c]);
            } else {
                assert(j[jp.len() + 1 + c] == segments.last().text@[c]);
            }
        }
        assert forall|k: int| 0 < k < segments.len() implies j[#[trigger] text_offset(segments, k)
            - 1] == ' ' by {
            if k < n - 1 {
                lemma_text_offset_prefix(segments, k);
                lemma_text_offset_grows(p, k, n - 1);
                lemma_text_offset_grows(p, k - 1, k);
                assert(jp[text_offset(p, k) - 1] == ' ');
                assert(j[text_offset(p, k) - 1] == jp[text_offset(p, k) - 1]);
            } else {
                assert(j[jp.len() as int] == ' ');
            }
        }
    }
}

/// The segment that the speech recogniser reports through its callback,
/// placed on the timeline of the whole audio: the timestamps (centiseconds
/// from the start of the chunk) are moved `chunk_offset_centiseconds` later
/// and the text is trimmed; a segment whose trimmed text is empty is dropped.
pub fn callback_segment(
    start_centiseconds: i64,
    end_centiseconds: i64,
    text: &str,
    chunk_offset_centiseconds: u64,
) -> (r: Option<TranscriptionSegment>)
    requires
        (start_centiseconds as u64) + chunk_offset_centiseconds <= u64::MAX,
        (end_centiseconds as u64) + chunk_offset_centiseconds <= u64::MAX,
    ensures
        trimmed(text@).len() == 0 ==> r is None,
        trimmed(text@).len() > 0 ==> (r matches Some(segment) && segment.start_timestamp == (
        start_centiseconds as u64) + chunk_offset_centiseconds && segment.end_timestamp == (
        end_centiseconds as u64) + chunk_offset_centiseconds && segment.text@ == trimmed(text@)),
{
    let start_timestamp = start_centiseconds as u64 + chunk_offset_centiseconds;
    let end_timestamp = end_centiseconds as u64 + chunk_offset_centiseconds;
    let text = trim(text);
    if text.as_str().unicode_len() == 0 {
        None
    } else {
        Some(TranscriptionSegment { start_timestamp, end_timestamp, text })
    }
}

/// A segment as plain values: its start and end on the timeline, and its
/// text.
pub open spec fn segment_triple(segment: TranscriptionSegment) -> (int, int, Seq<char>) {
    (segment.start_timestamp as int, segment.end_timestamp as int, segment.text@)
}

/// The segments of a list as plain values.
pub open spec fn segment_triples(segments: Seq<TranscriptionSegment>) -> Seq<(int, int, Seq<char>)> {
    segments.map_values(|segment: TranscriptionSegment| segment_triple(segment))
}

/// The segments collected so far, after the recogniser reports one more
/// segment `report` (start and end in centiseconds from the start of the
/// chunk, and the text as reported): the report placed `offset` later with
/// its text trimmed is appended, unless the trimmed text is empty.
pub open spec fn collect_step(
    collected: Seq<(int, int, Seq<char>)>,
    report: (i64, i64, Seq<char>),
    offset: int,
) -> Seq<(int, int, Seq<char>)> {
    if trimmed(report.2).len() == 0 {
        collected
    } else {
        collected.push(
            ((report.0 as u64) + offset, (report.1 as u64) + offset, trimmed(report.2)),
        )
    }
}

/// The segments collected from the recogniser's reports `reports`, in the
/// order they came, for a chunk that starts `offset` centiseconds into the
/// audio.
pub open spec fn collected_segments(reports: Seq<(i64, i64, Seq<char>)>, offset: int) -> Seq<
    (int, int, Seq<char>),
>
    decreases reports.len(),
{
    if reports.len() == 0 {
        Seq::empty()
    } else {
        collect_step(collected_segments(reports.drop_last(), offset), reports.last(), offset)
    }
}

/// Segments as plain values, each moved `offset` later.
pub open spec fn shifted_triples(triples: Seq<(int, int, Seq<char>)>, offset: int) -> Seq<
    (int, int, Seq<char>),
> {
    triples.map_values(|t: (int, int, Seq<char>)| (t.0 + offset, t.1 + offset, t.2))
}

/// Every non-blank report is kept, whatever was collected before: the list
/// grows by exactly one segment, the earlier segments stay as they were, and
/// the new one is the report placed `offset` later with its text trimmed. A
/// blank report leaves the list as it was.
pub proof fn lemma_collect_step_appends(
    collected: Seq<(int, int, Seq<char>)>,
    report: (i64, i64, Seq<char>),
    offset: int,
)
    ensures
        trimmed(report.2).len() == 0 ==> collect_step(collected, report, offset) == collected,
        trimmed(report.2).len() > 0 ==> {
            let r = collect_step(collected, report, offset);
            &&& r.len() == collected.len() + 1
            &&& forall|k: int| 0 <= k < collected.len() ==> #[trigger] r[k] == collected[k]
            &&& r[collected.len() as int].0 == (report.0 as u64) + offset
            &&& r[collected.len() as int].1 == (report.1 as u64) + offset
            &&& r[collected.len() as int].2 == trimmed(report.2)
        },
{
}

/// Handles one report of the recogniser's segment callback: the segment, placed
/// `chunk_offset_centiseconds` later with its text trimmed, is appended to
/// `segments` unless its trimmed text is empty.
pub fn push_callback_segment(
    segments: &mut Vec<TranscriptionSegment>,
    start_centiseconds: i64,
    end_centiseconds: i64,
    text: &str,
    chunk_offset_centiseconds: u64,
)
    requires
        (start_centiseconds as u64) + chunk_offset_centiseconds <= u64::MAX,
        (end_centiseconds as u64) + chunk_offset_centiseconds <= u64::MAX,
    ensures
        segment_triples(final(segments)@) == collect_step(
            segment_triples(old(segments)@),
            (start_centiseconds, end_centiseconds, text@),
            chunk_offset_centiseconds as int,
        ),
{
    match callback_segment(start_centiseconds, end_centiseconds, text, chunk_offset_centiseconds) {
        Some(found) => {
            segments.push(found);
            proof {
                assert(segment_triples(segments@) =~= segment_triples(old(segments)@).push(
                    segment_triple(segments@.last()),
                ));
            }
        },
        None => {},
    }
}

/// The segments collected for a chunk that starts `offset` centiseconds into
/// the audio are those collected for the same reports at offset zero, each
/// moved `offset` later.
pub proof fn lemma_collected_segments_shift(reports: Seq<(i64, i64, Seq<char>)>, offset: int)
    ensures
        collected_segments(reports, offset) == shifted_triples(collected_segments(reports, 0), offset),
    decreases reports.len(),
{
    if reports.len() == 0 {
        assert(shifted_triples(Seq::empty(), offset) =~= Seq::<(int, int, Seq<char>)>::empty());
    } else {
        let rest = reports.drop_last();
        let r = reports.last();
        lemma_collected_segments_shift(rest, offset);
        let base = collected_segments(rest, 0);
        if trimmed(r.2).len() > 0 {
            assert(shifted_triples(base.push(((r.0 as u64) + 0, (r.1 as u64) + 0, trimmed(r.2))), offset)
                =~= shifted_triples(base, offset).push(
                ((r.0 as u64) + offset, (r.1 as u64) + offset, trimmed(r.2)),
            ));
        }
    }
}

/// Collecting the recogniser's reports for a chunk at its offset gives the
/// same segments as collecting them at offset zero and then moving them with
/// `offset_segments`.
pub proof fn lemma_offset_collection_commutes(
    reports: Seq<(i64, i64, Seq<char>)>,
    at_zero: Seq<TranscriptionSegment>,
    moved: Seq<TranscriptionSegment>,
    at_offset: Seq<TranscriptionSegment>,
    offset: int,
)
    requires
        segment_triples(at_zero) == collected_segments(reports, 0),
        is_offset_of(moved, at_zero, offset),
        segment_triples(at_offset) == collected_segments(reports, offset),
    ensures
        segment_triples(moved) == segment_triples(at_offset),
{
    lemma_collected_segments_shift(reports, offset);
    assert forall|i: int| 0 <= i < moved.len() implies #[trigger] segment_triples(moved)[i]
        == shifted_triples(segment_triples(at_zero), offset)[i] by {
        assert(moved[i].start_timestamp == at_zero[i].start_timestamp + offset);
        assert(moved[i].end_timestamp == at_zero[i].end_timestamp + offset);
        assert(moved[i].text == at_zero[i].text);
    }
    assert(segment_triples(moved) =~= shifted_triples(segment_triples(at_zero), offset));
}

} // verus!

verus! {

/// Sample rate, in samples per second, that the recogniser takes.
pub const REQUIRED_SAMPLE_RATE: u32 = 16000;

/// Number of channels that the recogniser takes.
pub const REQUIRED_CHANNELS: u16 = 1;

/// How the samples of a WAV file are stored.
#[derive(Debug, Clone, Copy, PartialEq, Eq)]
pub enum SampleKind {
    Float,
    Int,
}

/// How to turn the stored samples of a WAV file into samples in `[-1, 1]`.
#[derive(Debug, Clone, Copy, PartialEq, Eq)]
pub enum SampleDecoding {
    /// 32-bit floats, taken as they are.
    Float32,
    /// 16-bit integers, divided by `full_scale`.
    Int16 { full_scale: u32 },
    /// Integers read as 32-bit values (24 or 32 bits stored), divided by
    /// `full_scale`.
    Int32 { full_scale: u32 },
}

/// Why a WAV file cannot be transcribed.
#[derive(Debug, Clone, Copy, PartialEq, Eq)]
pub enum WavFormatError {
    /// Not 16 kHz mono.
    NotMono16kHz,
    /// A sample layout that is not read.
    Unsupported { kind: SampleKind, bits_per_sample: u16 },
}

/// Chooses how to read the samples of a WAV file from its header: the file
/// must be 16 kHz mono; 32-bit floats are taken as they are, 16-bit integers
/// are scaled by 32767, 24-bit integers by 8388607 and 32-bit integers by
/// 2147483647; any other layout is refused.
pub fn wav_sample_decoding(
    sample_rate: u32,
    channels: u16,
    kind: SampleKind,
    bits_per_sample: u16,
) -> (r: Result<SampleDecoding, WavFormatError>)
    ensures
        sample_rate != REQUIRED_SAMPLE_RATE || channels != REQUIRED_CHANNELS ==> r == Err::<
            SampleDecoding,
            WavFormatError,
        >(WavFormatError::NotMono16kHz),
        sample_rate == REQUIRED_SAMPLE_RATE && channels == REQUIRED_CHANNELS ==> r == (match (
            kind,
            bits_per_sample,
        ) {
            (SampleKind::Float, 32) => Ok(SampleDecoding::Float32),
            (SampleKind::Int, 16) => Ok(SampleDecoding::Int16 { full_scale: 32767 }),
            (SampleKind::Int, 24) => Ok(SampleDecoding::Int32 { full_scale: 8388607 }),
            (SampleKind::Int, 32) => Ok(SampleDecoding::Int32 { full_scale: 2147483647 }),
            _ => Err(WavFormatError::Unsupported { kind, bits_per_sample }),
        }),
{
    if sample_rate != REQUIRED_SAMPLE_RATE || channels != REQUIRED_CHANNELS {
        return Err(WavFormatError::NotMono16kHz);
    }
    match (kind, bits_per_sample) {
        (SampleKind::Float, 32) => Ok(SampleDecoding::Float32),
        (SampleKind::Int, 16) => Ok(SampleDecoding::Int16 { full_scale: 32767 }),
        (SampleKind::Int, 24) => Ok(SampleDecoding::Int32 { full_scale: 8388607 }),
        (SampleKind::Int, 32) => Ok(SampleDecoding::Int32 { full_scale: 2147483647 }),
        _ => Err(WavFormatError::Unsupported { kind, bits_per_sample }),
    }
}

/// The name of a sample kind as it is printed in messages.
pub open spec fn sample_kind_name(kind: SampleKind) -> Seq<char> {
    match kind {
        SampleKind::Float => "Float"@,
        SampleKind::Int => "Int"@,
    }
}

impl WavFormatError {
    /// The text of the error, as it is reported to the user.
    pub open spec fn text(self) -> Seq<char> {
        match self {
            WavFormatError::NotMono16kHz => "Audio file must be 16kHz mono WAV format."@,
            WavFormatError::Unsupported { kind, bits_per_sample } => "Unsupported audio format: "@
                + sample_kind_name(kind) + ", "@ + decimal(bits_per_sample as nat) + " bits"@,
        }
    }

    /// The text of the error, as it is reported to the user.
    pub fn message(&self) -> (r: String)
        ensures
            r@ == self.text(),
    {
        match self {
            WavFormatError::NotMono16kHz => String::from_str(
                "Audio file must be 16kHz mono WAV format.",
            ),
            WavFormatError::Unsupported { kind, bits_per_sample } => {
                let mut out = String::from_str("Unsupported audio format: ");
                match kind {
                    SampleKind::Float => out.append("Float"),
                    SampleKind::Int => out.append("Int"),
                }
                out.append(", ");
                push_decimal(&mut out, *bits_per_sample as u64);
                out.append(" bits");
                out
            },
        }
    }
}

} // verus!

verus! {

/// The fields of the duration text put back together give the duration:
/// hours, minutes below 60, seconds below 60 and centiseconds below 100.
pub proof fn lemma_duration_fields(centiseconds: nat)
    ensures
        ({
            let total_secs = centiseconds / 100;
            &&& (total_secs / 3600) * 360000 + ((total_secs % 3600) / 60) * 6000 + (total_secs % 60)
                * 100 + centiseconds % 100 == centiseconds
            &&& (total_secs % 3600) / 60 < 60
            &&& total_secs % 60 < 60
            &&& centiseconds % 100 < 100
        }),
{
    let t = centiseconds / 100;
    assert(t * 100 + centiseconds % 100 == centiseconds) by (nonlinear_arith)
        requires
            t == centiseconds / 100,
    ;
    assert((t / 3600) * 3600 + t % 3600 == t) by (nonlinear_arith);
    let r = t % 3600;
    assert(r < 3600) by (nonlinear_arith)
        requires
            r == t % 3600,
    ;
    assert((r / 60) * 60 + r % 60 == r) by (nonlinear_arith);
    assert(r % 60 == t % 60) by (nonlinear_arith)
        requires
            r == t % 3600,
    ;
    assert(r / 60 < 60) by (nonlinear_arith)
        requires
            r < 3600,
    ;
    assert((t / 3600) * 360000 + (r / 60) * 6000 + (r % 60) * 100 + centiseconds % 100
        == centiseconds) by (nonlinear_arith)
        requires
            t * 100 + centiseconds % 100 == centiseconds,
            (t / 3600) * 3600 + r == t,
            (r / 60) * 60 + r % 60 == r,
    ;
}

/// Different durations give different texts: the duration can be read back
/// from its text.
pub proof fn lemma_duration_text_injective(a: nat, b: nat)
    requires
        duration_text(a) == duration_text(b),
    ensures
        a == b,
{
    let ta = a / 100;
    let tb = b / 100;
    lemma_duration_fields(a);
    lemma_duration_fields(b);
    crate::text::lemma_pad2_value(ta / 3600);
    crate::text::lemma_pad2_value(tb / 3600);
    crate::text::lemma_pad2_value((ta % 3600) / 60);
    crate::text::lemma_pad2_value((tb % 3600) / 60);
    crate::text::lemma_pad2_value(ta % 60);
    crate::text::lemma_pad2_value(tb % 60);
    crate::text::lemma_pad2_value(a % 100);
    crate::text::lemma_pad2_value(b % 100);
    let ha = pad2(ta / 3600);
    let hb = pad2(tb / 3600);
    let sa = duration_text(a);
    let len = sa.len() as int;
    assert(ha.len() == hb.len());
    assert(sa.subrange(0, ha.len() as int) =~= ha);
    assert(duration_text(b).subrange(0, hb.len() as int) =~= hb);
    assert(sa.subrange(len - 8, len - 6) =~= pad2((ta % 3600) / 60));
    assert(duration_text(b).subrange(len - 8, len - 6) =~= pad2((tb % 3600) / 60));
    assert(sa.subrange(len - 5, len - 3) =~= pad2(ta % 60));
    assert(duration_text(b).subrange(len - 5, len - 3) =~= pad2(tb % 60));
    assert(sa.subrange(len - 2, len) =~= pad2(a % 100));
    assert(duration_text(b).subrange(len - 2, len) =~= pad2(b % 100));
}

} // verus!
