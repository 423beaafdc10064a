//! The speech-to-text engine's own decisions, apart from the engine: how
//! many threads a transcription gets, how the recognised segments become
//! one transcript, and how a missing model file is reported.
use vstd::prelude::*;

use crate::text::{chars_of, extend_chars, push_str_chars, string_of, trim, trim_chars};

verus! {

/// The most threads a transcription is given, so it never starves
/// everything else running beside it.
pub const MAX_THREADS: i32 = 8;

/// The thread count used when the number of cores cannot be read.
pub const FALLBACK_THREADS: i32 = 4;

/// The thread count for `available` cores (`None` when unknown): the core
/// count, or the fallback, capped at `MAX_THREADS`.
pub open spec fn thread_count(available: Option<usize>) -> int {
    let n: int = match available {
        Some(n) => n as int,
        None => FALLBACK_THREADS as int,
    };
    if n < MAX_THREADS {
        n
    } else {
        MAX_THREADS as int
    }
}

/// Pick the thread count for a transcription from the number of cores
/// the machine reports (at least one), or `None` when it reports none.
pub fn sensible_thread_count(available: Option<usize>) -> (t: i32)
    requires
        available matches Some(n) ==> n >= 1,
    ensures
        t == thread_count(available),
        1 <= t <= MAX_THREADS,
{
    match available {
        Some(n) => {
            if n < MAX_THREADS as usize {
                n as i32
            } else {
                MAX_THREADS
            }
        },
        None => FALLBACK_THREADS,
    }
}

/// The text of the segments that decoded, run together.
pub open spec fn decoded_text(segments: Seq<Option<String>>) -> Seq<char>
    decreases segments.len(),
{
    if segments.len() == 0 {
        seq![]
    } else {
        decoded_text(segments.drop_last()) + match segments.last() {
            Some(t) => t@,
            None => seq![],
        }
    }
}

/// One transcript from the recognised segments: each segment's text in
/// order, a segment that did not decode skipped, and the whole trimmed.
pub fn transcript_text(segments: &Vec<Option<String>>) -> (r: String)
    ensures
        r@ == trim(decoded_text(segments@)),
{
    let mut out: Vec<char> = Vec::new();
    let mut i: usize = 0;
    while i < segments.len()
        invariant
            i <= segments@.len(),
            out@ == decoded_text(segments@.take(i as int)),
        decreases segments.len() - i,
    {
        assert(segments@.take(i + 1).drop_last() =~= segments@.take(i as int));
        match &segments[i] {
            Some(t) => {
                let cs = chars_of(t.as_str());
                extend_chars(&mut out, cs.as_slice());
            },
            None => {
                assert(out@ + Seq::<char>::empty() =~= out@);
            },
        }
        i = i + 1;
    }
    assert(segments@.take(segments@.len() as int) =~= segments@);
    let t = trim_chars(out.as_slice());
    string_of(t.as_slice())
}

/// The error for a model file that is not there, naming the path.
pub fn model_not_found_message(path: &str) -> (r: String)
    ensures
        r@ == "Whisper model file not found: "@ + path@,
{
    let mut t = chars_of("Whisper model file not found: ");
    push_str_chars(&mut t, path);
    string_of(t.as_slice())
}

} // verus!
