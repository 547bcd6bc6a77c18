//! The response pipeline: raw body chunks in, deltas out, in arrival order.
use vstd::prelude::*;
use vstd::utf8::{decode_utf8, valid_utf8};
use crate::config::ProviderKind;
use crate::interpret::{frame_delta, interpret_sse_event};
use crate::sse::{FrameView, PendingView, SseDecoder, feed, first_boundary_from, frames_view};
use crate::sse_laws::{feed_all, flatten, lemma_split_invariance};
use crate::text::{append_str, chars_of, string_of};

verus! {

/// The message of the error `std::str::from_utf8` reports on the bytes `b`.
pub uninterp spec fn utf8_error_text(b: Seq<u8>) -> Seq<char>;

/// Relies on `std::str::from_utf8`: it succeeds exactly on valid UTF-8, and the text
/// then holds the characters the bytes encode; on failure, the `Display` of its error.
#[verifier::external_body]
fn utf8_text(bytes: &[u8]) -> (r: Result<String, String>)
    ensures
        match r {
            Ok(s) => valid_utf8(bytes@) && s@ == decode_utf8(bytes@),
            Err(m) => !valid_utf8(bytes@) && m@ == utf8_error_text(bytes@),
        },
{
    match std::str::from_utf8(bytes) {
        Ok(s) => Ok(s.to_string()),
        Err(e) => Err(e.to_string()),
    }
}

/// The results as plain data.
pub open spec fn results_view(v: Seq<Result<String, String>>) -> Seq<Result<Seq<char>, Seq<char>>> {
    v.map_values(
        |x: Result<String, String>|
            match x {
                Ok(t) => Ok(t@),
                Err(e) => Err(e@),
            },
    )
}

/// The deltas of the frames `fs` for provider `p`, in order; frames that yield none
/// are passed over.
pub open spec fn frames_deltas(p: ProviderKind, fs: Seq<FrameView>) -> Seq<
    Result<Seq<char>, Seq<char>>,
>
    decreases fs.len(),
{
    if fs.len() == 0 {
        Seq::empty()
    } else {
        let prev = frames_deltas(p, fs.drop_last());
        match frame_delta(p, fs.last()) {
            Some(d) => prev.push(d),
            None => prev,
        }
    }
}

pub open spec fn utf8_failure(b: Seq<u8>) -> Seq<char> {
    "Failed to parse chunk as UTF-8: "@ + utf8_error_text(b)
}

/// Handles one chunk of the response body. A transport failure is passed on as one
/// failure; bytes that are no UTF-8 give one failure and leave the decoder as it was;
/// otherwise the text goes to the decoder and every frame it completes is
/// interpreted, in order.
pub fn process_chunk(chunk: Result<&[u8], String>, decoder: &mut SseDecoder, provider: ProviderKind) -> (r: Vec<
    Result<String, String>,
>)
    ensures
        match chunk {
            Err(m) => results_view(r@) == seq![Err::<Seq<char>, Seq<char>>(m@)] && final(decoder)@
                == old(decoder)@,
            Ok(b) => if valid_utf8(b@) {
                results_view(r@) == frames_deltas(provider, feed(old(decoder)@, decode_utf8(b@)).0)
                    && final(decoder)@ == feed(old(decoder)@, decode_utf8(b@)).1
            } else {
                results_view(r@) == seq![Err::<Seq<char>, Seq<char>>(utf8_failure(b@))]
                    && final(decoder)@ == old(decoder)@
            },
        },
{
    let mut results: Vec<Result<String, String>> = Vec::new();
    match chunk {
        Err(m) => {
            results.push(Err(m));
            proof {
                assert(results_view(results@) =~= seq![Err::<Seq<char>, Seq<char>>(m@)]);
            }
            results
        },
        Ok(bytes) => match utf8_text(bytes) {
            Err(e) => {
                let mut out = chars_of("Failed to parse chunk as UTF-8: ");
                append_str(&mut out, e.as_str());
                results.push(Err(string_of(&out)));
                proof {
                    assert(results_view(results@) =~= seq![
                        Err::<Seq<char>, Seq<char>>(utf8_failure(bytes@)),
                    ]);
                }
                results
            },
            Ok(text) => {
                let mut events = decoder.ingest(text.as_str());
                let ghost frames = frames_view(events@);
                let total = events.len();
                let ghost n = total as nat;
                let mut k: usize = 0;
                while events.len() > 0
                    invariant
                        k + events@.len() == n,
                        frames.len() == n,
                        n <= usize::MAX,
                        frames_view(events@) == frames.skip(k as int),
                        results_view(results@) == frames_deltas(provider, frames.take(k as int)),
                    decreases events@.len(),
                {
                    let ghost before = events@;
                    let e = events.remove(0);
                    proof {
                        assert(frames_view(events@) =~= frames_view(before).skip(1));
                        assert(frames.skip(k as int)[0] == e@);
                        assert(frames.take(k + 1).drop_last() =~= frames.take(k as int));
                        assert(frames.take(k + 1).last() == e@);
                        assert(frames.skip(k as int).skip(1) =~= frames.skip(k + 1));
                    }
                    let ghost prev = results@;
                    match interpret_sse_event(provider, e) {
                        Some(d) => {
                            results.push(d);
                            proof {
                                assert(results_view(results@) =~= results_view(prev).push(
                                    results_view(results@).last(),
                                ));
                            }
                        },
                        None => {},
                    }
                    k += 1;
                }
                proof {
                    assert(frames.take(n as int) =~= frames);
                }
                results
            },
        },
    }
}

/// Deltas keep the order of frames: those of two runs of frames, one after the
/// other, are the deltas of each run, in turn.
pub proof fn lemma_frames_deltas_concat(p: ProviderKind, a: Seq<FrameView>, b: Seq<FrameView>)
    ensures
        frames_deltas(p, a + b) == frames_deltas(p, a) + frames_deltas(p, b),
    decreases b.len(),
{
    if b.len() == 0 {
        assert(a + b =~= a);
        assert(frames_deltas(p, a) + frames_deltas(p, b) =~= frames_deltas(p, a));
    } else {
        assert((a + b).drop_last() =~= a + b.drop_last());
        assert((a + b).last() == b.last());
        lemma_frames_deltas_concat(p, a, b.drop_last());
        match frame_delta(p, b.last()) {
            Some(d) => {
                assert(frames_deltas(p, a) + frames_deltas(p, b.drop_last()).push(d) =~= (
                frames_deltas(p, a) + frames_deltas(p, b.drop_last())).push(d));
            },
            None => {},
        }
    }
}

/// The deltas of feeding the text fragments `cs` in turn to a decoder that holds
/// `pending`, in order.
pub open spec fn fragments_deltas(p: ProviderKind, pending: PendingView, cs: Seq<Seq<char>>) -> Seq<
    Result<Seq<char>, Seq<char>>,
>
    decreases cs.len(),
{
    if cs.len() == 0 {
        Seq::empty()
    } else {
        let f = feed(pending, cs[0]);
        frames_deltas(p, f.0) + fragments_deltas(p, f.1, cs.skip(1))
    }
}

proof fn lemma_fragments_deltas_frames(p: ProviderKind, pending: PendingView, cs: Seq<Seq<char>>)
    ensures
        fragments_deltas(p, pending, cs) == frames_deltas(p, feed_all(pending, cs).0),
    decreases cs.len(),
{
    if cs.len() > 0 {
        let f = feed(pending, cs[0]);
        lemma_fragments_deltas_frames(p, f.1, cs.skip(1));
        lemma_frames_deltas_concat(p, f.0, feed_all(f.1, cs.skip(1)).0);
    }
}

/// Arrival order is kept end to end: the deltas of text that arrives in fragments
/// are those of the same text arriving at once, however it is cut.
pub proof fn lemma_pipeline_split_invariance(p: ProviderKind, pending: PendingView, cs: Seq<Seq<char>>)
    requires
        first_boundary_from(pending.0, 0) is None,
    ensures
        fragments_deltas(p, pending, cs) == frames_deltas(p, feed(pending, flatten(cs)).0),
{
    lemma_fragments_deltas_frames(p, pending, cs);
    lemma_split_invariance(pending, cs);
}

} // verus!
