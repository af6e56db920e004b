//! The request filter of a gateway: when a buffered body is compressed, and what goes upstream.
use crate::text;
use vstd::prelude::*;

verus! {

/// What to do with a piece of a request body.
#[derive(Debug, Clone, Copy, PartialEq, Eq, Structural)]
pub enum BodyStep {
    /// Wait for the rest of the body.
    Pause,
    /// Let the request go on as it is.
    Continue,
    /// Take the whole body, of this size, and compress it.
    Compress { size: usize },
}

/// What to do when `size` bytes of a body are buffered: wait for the end of the body, and then
/// compress it, unless it is empty.
pub open spec fn body_step_view(size: usize, end_of_stream: bool) -> BodyStep {
    if !end_of_stream {
        BodyStep::Pause
    } else if size == 0 {
        BodyStep::Continue
    } else {
        BodyStep::Compress { size }
    }
}

/// What to do when `size` bytes of a body are buffered.
pub fn on_http_request_body(size: usize, end_of_stream: bool) -> (r: BodyStep)
    ensures
        r == body_step_view(size, end_of_stream),
{
    if !end_of_stream {
        BodyStep::Pause
    } else if size == 0 {
        BodyStep::Continue
    } else {
        BodyStep::Compress { size }
    }
}

/// A body is compressed when it is there to its end, whole; until then the request waits, and one
/// without a body goes on.
pub proof fn law_only_whole_bodies_are_compressed(size: usize, end_of_stream: bool)
    ensures
        body_step_view(size, end_of_stream) == BodyStep::Pause <==> !end_of_stream,
        end_of_stream && size == 0 <==> body_step_view(size, end_of_stream) == BodyStep::Continue,
        end_of_stream && size > 0 ==> body_step_view(size, end_of_stream) == (BodyStep::Compress {
            size,
        }),
{
}

/// What the engine made of a body: the bytes to send, and whether they are the original ones.
#[derive(Debug)]
pub struct Outcome {
    pub body: Vec<u8>,
    pub passthrough: bool,
}

/// What goes upstream: the bytes to put in the place of the buffered body, where they differ, and the
/// length to declare.
#[derive(Debug)]
pub struct Forward {
    pub replacement: Option<Vec<u8>>,
    pub content_length: String,
}

/// The body is replaced unless it is passed through, and the declared length is that of the bytes
/// that are sent.
pub fn forward(outcome: Outcome) -> (r: Forward)
    ensures
        match r.replacement {
            Some(b) => !outcome.passthrough && b@ == outcome.body@,
            None => outcome.passthrough,
        },
        r.content_length@ == text::decimal(outcome.body@.len()),
{
    let n: usize = outcome.body.len();
    let content_length = text::decimal_text(n as u64);
    if outcome.passthrough {
        Forward { replacement: None, content_length }
    } else {
        Forward { replacement: Some(outcome.body), content_length }
    }
}

/// The declared length is the length of what is sent, whether the engine compressed the body or
/// passed it through unchanged.
pub proof fn law_declared_length_is_sent_length(
    original: Seq<u8>,
    outcome: Outcome,
    sent: Forward,
)
    requires
        outcome.passthrough ==> outcome.body@ == original,
        match sent.replacement {
            Some(b) => !outcome.passthrough && b@ == outcome.body@,
            None => outcome.passthrough,
        },
        sent.content_length@ == text::decimal(outcome.body@.len()),
    ensures
        ({
            let on_the_wire = match sent.replacement {
                Some(b) => b@,
                None => original,
            };
            text::decimal_value(sent.content_length@) == on_the_wire.len()
        }),
{
    text::lemma_decimal_round_trip(outcome.body@.len());
}

} // verus!
