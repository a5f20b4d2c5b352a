//! Transcription and executive-summary pipeline: the verified core.
//!
//! The modules hold the logic of the pipeline as plain functions over plain
//! values; the program around them (file and network access, the speech
//! recogniser, the language model) hands them their inputs.

pub mod audio;
pub mod cli;
pub mod model;
pub mod summary;
pub mod text;

use vstd::prelude::*;
use crate::text::{trim, trimmed};

verus! {

/// Sample rate at which a recording is cut into chunks.
pub const CHUNK_SAMPLE_RATE: u32 = 16000;

/// Length of a chunk, in seconds.
pub const CHUNK_DURATION_SECONDS: u32 = 30;

/// Overlap of consecutive chunks, in seconds.
pub const CHUNK_OVERLAP_SECONDS: u32 = 5;

/// What a chunk's transcript adds to the running transcript: its trimmed
/// text followed by a space, or nothing where it is blank.
pub open spec fn transcript_piece(chunk_transcript: Seq<char>) -> Seq<char> {
    if trimmed(chunk_transcript).len() == 0 {
        Seq::empty()
    } else {
        trimmed(chunk_transcript) + seq![' ']
    }
}

/// The running transcript after the chunk transcripts `chunks`, in order.
pub open spec fn cumulative_transcript(chunks: Seq<Seq<char>>) -> Seq<char>
    decreases chunks.len(),
{
    if chunks.len() == 0 {
        Seq::empty()
    } else {
        cumulative_transcript(chunks.drop_last()) + transcript_piece(chunks.last())
    }
}

/// Adds a chunk's transcript to the running transcript: its trimmed text and
/// a space, unless it is blank.
pub fn append_chunk_transcript(cumulative: &mut String, chunk_transcript: &str)
    ensures
        final(cumulative)@ == old(cumulative)@ + transcript_piece(chunk_transcript@),
{
    let trimmed_text = trim(chunk_transcript);
    if trimmed_text.as_str().unicode_len() > 0 {
        proof {
            reveal_strlit(" ");
        }
        cumulative.append(trimmed_text.as_str());
        cumulative.append(" ");
    }
}

/// A chunk's transcript reaches the running transcript whole: where it is
/// blank it adds nothing; otherwise it adds every character of its trimmed
/// text, in order, and then one space, whatever its length.
pub proof fn lemma_transcript_piece_keeps_chunk(chunk_transcript: Seq<char>)
    ensures
        trimmed(chunk_transcript).len() == 0 ==> transcript_piece(chunk_transcript).len() == 0,
        trimmed(chunk_transcript).len() > 0 ==> {
            let t = trimmed(chunk_transcript);
            let p = transcript_piece(chunk_transcript);
            &&& p.len() == t.len() + 1
            &&& forall|k: int| 0 <= k < t.len() ==> #[trigger] p[k] == t[k]
            &&& p[t.len() as int] == ' '
        },
{
}

/// Each chunk lengthens the running transcript by its trimmed text and one
/// space, or not at all where it is blank.
pub proof fn lemma_cumulative_transcript_step(chunks: Seq<Seq<char>>, chunk_transcript: Seq<char>)
    ensures
        cumulative_transcript(chunks.push(chunk_transcript)).len() == cumulative_transcript(
            chunks,
        ).len() + if trimmed(chunk_transcript).len() == 0 {
            0
        } else {
            trimmed(chunk_transcript).len() + 1
        },
        cumulative_transcript(chunks.push(chunk_transcript)).subrange(
            0,
            cumulative_transcript(chunks).len() as int,
        ) == cumulative_transcript(chunks),
{
    let before = cumulative_transcript(chunks);
    let after = cumulative_transcript(chunks.push(chunk_transcript));
    assert(chunks.push(chunk_transcript).drop_last() =~= chunks);
    assert(after.subrange(0, before.len() as int) =~= before);
}

/// The running transcript only grows: after any later chunk it still begins
/// with what it was after an earlier one, so no transcribed text is lost
/// between summaries.
pub proof fn lemma_cumulative_transcript_grows(chunks: Seq<Seq<char>>, earlier: int, later: int)
    requires
        0 <= earlier <= later <= chunks.len(),
    ensures
        cumulative_transcript(chunks.take(later)).subrange(
            0,
            cumulative_transcript(chunks.take(earlier)).len() as int,
        ) == cumulative_transcript(chunks.take(earlier)),
        cumulative_transcript(chunks.take(earlier)).len() <= cumulative_transcript(
            chunks.take(later),
        ).len(),
    decreases later - earlier,
{
    if earlier < later {
        lemma_cumulative_transcript_grows(chunks, earlier, later - 1);
        assert(chunks.take(later).drop_last() =~= chunks.take(later - 1));
        let a = cumulative_transcript(chunks.take(earlier));
        let b = cumulative_transcript(chunks.take(later - 1));
        let c = cumulative_transcript(chunks.take(later));
        assert(c == b + transcript_piece(chunks.take(later).last()));
        assert(c.subrange(0, a.len() as int) =~= b.subrange(0, a.len() as int));
    } else {
        let a = cumulative_transcript(chunks.take(earlier));
        assert(a.subrange(0, a.len() as int) =~= a);
    }
}

} // verus!
