//! The decisions the dispatcher makes for one recorded utterance, around the
//! calls to the speech and language services.

use vstd::prelude::*;
use crate::chatbox::{chatbox_packets, chunk_count, chunk_of, osc_message_bytes};
use crate::price_estimator::{
    sat_add_u128, token_estimate, transcription_cost, translation_cost, LedgerState,
    PriceEstimator,
};
use crate::translation::{reply_of, reply_text};
use crate::wav::{audio_duration_ms, duration_ms, wav_duration_frames, wav_readable, wav_sample_rate};

verus! {

/// How an encoded utterance is judged before transcription.
#[derive(Debug, PartialEq, Eq, Structural)]
pub enum Screening {
    /// The audio cannot be read.
    Unreadable,
    /// Shorter than the minimum duration: it is skipped.
    TooShort(u64),
    /// Long enough to transcribe; its duration in milliseconds.
    Accepted(u64),
}

/// Judges an utterance of known duration against the minimum duration.
pub fn classify_duration(duration: Option<u64>, min_duration_ms: u64) -> (r: Screening)
    ensures
        r == match duration {
            None => Screening::Unreadable,
            Some(d) => if d >= min_duration_ms {
                Screening::Accepted(d)
            } else {
                Screening::TooShort(d)
            },
        },
{
    match duration {
        None => Screening::Unreadable,
        Some(d) => if d >= min_duration_ms {
            Screening::Accepted(d)
        } else {
            Screening::TooShort(d)
        },
    }
}

/// Judges an encoded utterance: only one that lasts at least
/// `min_duration_ms` is transcribed.
pub fn screen_utterance(audio: &[u8], min_duration_ms: u64) -> (r: Screening)
    ensures
        wav_readable(audio@) && wav_sample_rate(audio@) > 0 ==> !(r is Unreadable),
        !wav_readable(audio@) || wav_sample_rate(audio@) == 0 ==> r == Screening::Unreadable,
        r matches Screening::Accepted(d) ==> d == duration_ms(
            wav_duration_frames(audio@),
            wav_sample_rate(audio@),
        ) && d >= min_duration_ms,
        r matches Screening::TooShort(d) ==> d == duration_ms(
            wav_duration_frames(audio@),
            wav_sample_rate(audio@),
        ) && d < min_duration_ms,
{
    classify_duration(audio_duration_ms(audio), min_duration_ms)
}

/// Cost of one utterance, as the ledger computes it.
pub open spec fn utterance_cost(
    e: LedgerState,
    duration_ms: u64,
    prompt: Seq<char>,
    response: Seq<char>,
) -> int {
    transcription_cost(e.transcription_price_per_minute, duration_ms) + translation_cost(
        e.input_price_per_million,
        e.output_price_per_million,
        token_estimate(prompt) as usize,
        token_estimate(response) as usize,
    )
}

/// Finishes an utterance once it is transcribed and translated: adds its cost
/// to the ledger and returns that cost with the datagrams that show the reply
/// in the chatbox, in sending order.
pub fn complete_utterance(
    ledger: &mut PriceEstimator,
    duration_ms: u64,
    prompt: &str,
    transcription: &str,
    response: &str,
    include_original: bool,
    max_chunks: usize,
) -> (r: (u128, Vec<Vec<u8>>))
    ensures
        r.0 == utterance_cost(old(ledger)@, duration_ms, prompt@, response@),
        final(ledger)@ == (LedgerState {
            total_cost: sat_add_u128(old(ledger)@.total_cost, r.0),
            ..old(ledger)@
        }),
        r.1@.len() == chunk_count(
            reply_of(response@, transcription@, include_original).len(),
            max_chunks as nat,
        ),
        forall|i: int|
            0 <= i < r.1@.len() ==> (#[trigger] r.1@[i])@ == osc_message_bytes(
                "/chatbox/input"@,
                Some(chunk_of(reply_of(response@, transcription@, include_original), i)),
                seq![true, i == 0],
            ),
{
    let cost = ledger.operation_cost(duration_ms, prompt, response);
    ledger.add_cost(cost);
    let reply = reply_text(response, transcription, include_original);
    let packets = chatbox_packets(reply.as_str(), max_chunks);
    (cost, packets)
}

} // verus!
