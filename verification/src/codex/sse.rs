//! The event stream of a turn, and the lines of a server-sent event stream that carry it.
use crate::json;
use crate::json::{Json, JsonView};
use vstd::prelude::*;

verus! {

// ---------------------------------------------------------------------------------------------
// Events
// ---------------------------------------------------------------------------------------------

/// Why a turn ended.
#[derive(Debug, Clone, Copy, PartialEq, Eq, Structural)]
pub enum StopReason {
    EndTurn,
    ToolUse,
    MaxTokens,
}

/// The tokens of a turn: fresh input, output, and input read from or written to a cache.
#[derive(Debug, Clone, Copy, PartialEq, Eq, Structural)]
pub struct Usage {
    pub input: i64,
    pub output: i64,
    pub cache_read: i64,
    pub cache_write: i64,
}

/// No tokens at all.
pub open spec fn no_usage() -> Usage {
    Usage { input: 0, output: 0, cache_read: 0, cache_write: 0 }
}

impl Default for Usage {
    fn default() -> (r: Usage)
        ensures
            r == no_usage(),
    {
        Usage { input: 0, output: 0, cache_read: 0, cache_write: 0 }
    }
}

/// One event of a turn, whatever service answered it.
#[derive(Debug, Clone, PartialEq)]
pub enum ReduceEvent {
    TextStart,
    TextDelta(String),
    TextStop,
    ThinkingStart,
    ThinkingDelta(String),
    ThinkingStop,
    ToolStart { id: String, name: String },
    ToolDelta(String),
    ToolStop,
    Finish {
        stop_reason: StopReason,
        usage: Usage,
        response_id: Option<String>,
        continuation_eligible: bool,
    },
    Error { message: String },
}

/// An event with its texts as sequences of characters.
pub enum EventView {
    TextStart,
    TextDelta(Seq<char>),
    TextStop,
    ThinkingStart,
    ThinkingDelta(Seq<char>),
    ThinkingStop,
    ToolStart { id: Seq<char>, name: Seq<char> },
    ToolDelta(Seq<char>),
    ToolStop,
    Finish {
        stop_reason: StopReason,
        usage: Usage,
        response_id: Option<Seq<char>>,
        continuation_eligible: bool,
    },
    Error { message: Seq<char> },
}

/// An optional string as an optional sequence of characters.
pub open spec fn text_option(s: Option<String>) -> Option<Seq<char>> {
    match s {
        Some(t) => Some(t@),
        None => None,
    }
}

impl View for ReduceEvent {
    type V = EventView;

    open spec fn view(&self) -> EventView {
        match self {
            ReduceEvent::TextStart => EventView::TextStart,
            ReduceEvent::TextDelta(s) => EventView::TextDelta(s@),
            ReduceEvent::TextStop => EventView::TextStop,
            ReduceEvent::ThinkingStart => EventView::ThinkingStart,
            ReduceEvent::ThinkingDelta(s) => EventView::ThinkingDelta(s@),
            ReduceEvent::ThinkingStop => EventView::ThinkingStop,
            ReduceEvent::ToolStart { id, name } => EventView::ToolStart { id: id@, name: name@ },
            ReduceEvent::ToolDelta(s) => EventView::ToolDelta(s@),
            ReduceEvent::ToolStop => EventView::ToolStop,
            ReduceEvent::Finish { stop_reason, usage, response_id, continuation_eligible } =>
                EventView::Finish {
                stop_reason: *stop_reason,
                usage: *usage,
                response_id: text_option(*response_id),
                continuation_eligible: *continuation_eligible,
            },
            ReduceEvent::Error { message } => EventView::Error { message: message@ },
        }
    }
}

/// The views of a list of events.
pub open spec fn events(v: Seq<ReduceEvent>) -> Seq<EventView> {
    v.map_values(|e: ReduceEvent| e@)
}

/// Appends one event.
pub fn emit(out: &mut Vec<ReduceEvent>, e: ReduceEvent)
    ensures
        events(final(out)@) == events(old(out)@).push(e@),
{
    out.push(e);
    assert(events(out@) =~= events(old(out)@).push(e@));
}

// ---------------------------------------------------------------------------------------------
// Lines
// ---------------------------------------------------------------------------------------------

/// `data:`
pub open spec fn data_prefix() -> Seq<u8> {
    seq![100u8, 97u8, 116u8, 97u8, 58u8]
}

/// The value that one line carries: the JSON after `data:`. Other lines, and data that is not JSON,
/// carry none.
pub open spec fn line_value(line: Seq<u8>) -> Option<JsonView> {
    if line.len() >= 5 && line.take(5) == data_prefix() {
        json::parsed_json(line.skip(5))
    } else {
        None
    }
}

/// What a parser has made of the bytes so far: the values of the complete lines, and the bytes of
/// the line that is still open.
#[verifier::ext_equal]
pub struct Fed {
    pub values: Seq<JsonView>,
    pub rest: Seq<u8>,
}

/// Feeding `chunk` to a parser whose open line is `rest`.
pub open spec fn feed(rest: Seq<u8>, chunk: Seq<u8>) -> Fed
    decreases chunk.len(),
{
    if chunk.len() == 0 {
        Fed { values: Seq::empty(), rest }
    } else {
        let before = feed(rest, chunk.drop_last());
        if chunk.last() == 10u8 {
            Fed {
                values: match line_value(before.rest) {
                    Some(v) => before.values.push(v),
                    None => before.values,
                },
                rest: Seq::empty(),
            }
        } else {
            Fed { values: before.values, rest: before.rest.push(chunk.last()) }
        }
    }
}

/// How a stream is cut into chunks makes no difference to the values it carries.
pub proof fn law_feed_is_chunk_independent(rest: Seq<u8>, a: Seq<u8>, b: Seq<u8>)
    ensures
        feed(rest, a + b).values == feed(rest, a).values + feed(feed(rest, a).rest, b).values,
        feed(rest, a + b).rest == feed(feed(rest, a).rest, b).rest,
    decreases b.len(),
{
    let mid = feed(rest, a);
    if b.len() == 0 {
        assert(a + b =~= a);
        assert(mid.values + feed(mid.rest, b).values =~= mid.values);
    } else {
        law_feed_is_chunk_independent(rest, a, b.drop_last());
        assert((a + b).drop_last() =~= a + b.drop_last());
        let tail = feed(mid.rest, b.drop_last());
        match line_value(tail.rest) {
            Some(v) => {
                assert(mid.values + tail.values.push(v) =~= (mid.values + tail.values).push(v));
            },
            None => {},
        }
    }
}

/// Splits a byte stream into lines and reads the JSON of its `data:` lines.
#[derive(Debug)]
pub struct SseLineParser {
    buf: Vec<u8>,
}

impl View for SseLineParser {
    type V = Seq<u8>;

    /// The bytes of the line that is still open.
    closed spec fn view(&self) -> Seq<u8> {
        self.buf@
    }
}

/// The value that one line carries.
fn read_line(line: &Vec<u8>) -> (r: Option<Json>)
    ensures
        match r {
            Some(j) => line_value(line@) == Some(j@),
            None => line_value(line@) is None,
        },
{
    if line.len() < 5 || line[0] != 100u8 || line[1] != 97u8 || line[2] != 116u8 || line[3] != 97u8
        || line[4] != 58u8 {
        proof {
            if line@.len() >= 5 && line@.take(5) == data_prefix() {
                let p = line@.take(5);
                assert(p[0] == 100u8 && p[1] == 97u8 && p[2] == 116u8 && p[3] == 97u8 && p[4]
                    == 58u8);
            }
        }
        return None;
    }
    assert(line@.take(5) =~= data_prefix());
    let mut body: Vec<u8> = Vec::new();
    let mut i: usize = 5;
    while i < line.len()
        invariant
            5 <= i <= line@.len(),
            body@ == line@.subrange(5, i as int),
        decreases line@.len() - i,
    {
        body.push(line[i]);
        i = i + 1;
        assert(body@ =~= line@.subrange(5, i as int));
    }
    assert(body@ =~= line@.skip(5));
    Json::parse(body.as_slice())
}

impl SseLineParser {
    pub fn new() -> (r: SseLineParser)
        ensures
            r@ == Seq::<u8>::empty(),
    {
        SseLineParser { buf: Vec::new() }
    }

    /// Takes the next bytes of the stream and gives the values of the lines that they complete.
    pub fn push(&mut self, chunk: &[u8]) -> (r: Vec<Json>)
        ensures
            json::jsons(r@) == feed(old(self)@, chunk@).values,
            final(self)@ == feed(old(self)@, chunk@).rest,
    {
        let mut out: Vec<Json> = Vec::new();
        let mut i: usize = 0;
        assert(chunk@.take(0) =~= Seq::<u8>::empty());
        assert(json::jsons(out@) =~= Seq::<JsonView>::empty());
        while i < chunk.len()
            invariant
                i <= chunk@.len(),
                json::jsons(out@) == feed(old(self)@, chunk@.take(i as int)).values,
                self.buf@ == feed(old(self)@, chunk@.take(i as int)).rest,
            decreases chunk@.len() - i,
        {
            let b: u8 = chunk[i];
            assert(chunk@.take(i + 1).drop_last() =~= chunk@.take(i as int));
            if b == 10u8 {
                let ghost before = json::jsons(out@);
                match read_line(&self.buf) {
                    Some(v) => {
                        out.push(v);
                        assert(json::jsons(out@) =~= before.push(v@));
                    },
                    None => {},
                }
                self.buf = Vec::new();
            } else {
                self.buf.push(b);
            }
            i = i + 1;
        }
        assert(chunk@.take(chunk@.len() as int) =~= chunk@);
        out
    }
}

} // verus!
