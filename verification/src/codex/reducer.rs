//! Reduces the event stream of a Responses turn to the shared stream of [`ReduceEvent`]s.
use crate::codex::items;
use crate::codex::read_rewrite;
use crate::codex::read_rewrite::{ReadOffsetRewrite, RewriteView};
use crate::codex::sse;
use crate::codex::sse::{EventView, ReduceEvent, SseLineParser, StopReason, Usage};
use crate::json;
use crate::json::{Json, JsonView};
use crate::text;
use vstd::prelude::*;

verus! {

/// The block that is open in the event stream.
#[derive(Debug, Clone, Copy, PartialEq, Eq, Structural)]
pub enum Open {
    Nothing,
    Thinking,
    Text,
    Tool,
}

// ---------------------------------------------------------------------------------------------
// The model
// ---------------------------------------------------------------------------------------------

/// What a reducer knows of the turn.
#[verifier::ext_equal]
pub struct Turn {
    /// The block that is open.
    pub open: Open,
    pub saw_tool_use: bool,
    /// The current tool call: the tool's name, the call's id and the arguments so far.
    pub tool_name: Seq<char>,
    pub tool_id: Seq<char>,
    pub tool_buf: Seq<char>,
    /// Whether the arguments of the current tool call have gone out.
    pub tool_flushed: bool,
    /// The place of the current tool call among the items of the response.
    pub tool_output_index: Option<i64>,
    /// Whether the turn has ended.
    pub terminal_seen: bool,
    /// The text that has not become an item yet.
    pub text: Seq<char>,
    /// The items of the answer, as they would stand in the input of the next turn.
    pub items: Seq<JsonView>,
    /// The tool calls that were repaired.
    pub rewrites: Seq<RewriteView>,
}

/// A turn before any event.
pub open spec fn fresh_turn() -> Turn {
    Turn {
        open: Open::Nothing,
        saw_tool_use: false,
        tool_name: Seq::empty(),
        tool_id: Seq::empty(),
        tool_buf: Seq::empty(),
        tool_flushed: false,
        tool_output_index: None,
        terminal_seen: false,
        text: Seq::empty(),
        items: Seq::empty(),
        rewrites: Seq::empty(),
    }
}

/// A change of the turn and the events that go out with it.
#[verifier::ext_equal]
pub struct Step {
    pub turn: Turn,
    pub out: Seq<EventView>,
}

/// No change and no event.
pub open spec fn stay(t: Turn) -> Step {
    Step { turn: t, out: Seq::empty() }
}

/// The pending text becomes a message item.
pub open spec fn text_flushed(t: Turn) -> Turn {
    if t.text.len() == 0 {
        t
    } else {
        Turn {
            items: t.items.push(
                items::message_view(
                    "assistant"@,
                    seq![items::text_part_view("output_text"@, t.text)],
                ),
            ),
            text: Seq::empty(),
            ..t
        }
    }
}

/// The buffered arguments of the current tool call go out, once: repaired, as one event, unless they
/// are empty; and a call that has a name becomes an item.
pub open spec fn tool_flushed(t: Turn) -> Step {
    if t.tool_flushed {
        stay(t)
    } else {
        let args = read_rewrite::sanitized(t.tool_name, t.tool_buf);
        let rewrites = match read_rewrite::offset_in(t.tool_name, t.tool_buf) {
            Some(offset) => t.rewrites.push(RewriteView { call_id: t.tool_id, offset }),
            None => t.rewrites,
        };
        let items = if t.tool_name.len() == 0 {
            t.items
        } else {
            t.items.push(
                items::function_call_view(
                    t.tool_id,
                    t.tool_name,
                    if args.len() == 0 {
                        t.tool_buf
                    } else {
                        args
                    },
                ),
            )
        };
        Step {
            turn: Turn { tool_flushed: true, rewrites, items, ..t },
            out: if args.len() == 0 {
                Seq::empty()
            } else {
                seq![EventView::ToolDelta(args)]
            },
        }
    }
}

/// The open block closes.
pub open spec fn closed_block(t: Turn) -> Step {
    match t.open {
        Open::Nothing => stay(t),
        Open::Thinking => Step {
            turn: Turn { open: Open::Nothing, ..t },
            out: seq![EventView::ThinkingStop],
        },
        Open::Text => Step {
            turn: Turn { open: Open::Nothing, ..text_flushed(t) },
            out: seq![EventView::TextStop],
        },
        Open::Tool => {
            let s = tool_flushed(t);
            Step {
                turn: Turn { open: Open::Nothing, ..s.turn },
                out: s.out.push(EventView::ToolStop),
            }
        },
    }
}

/// `s`, or nothing where it is missing.
pub open spec fn or_empty(s: Option<Seq<char>>) -> Seq<char> {
    match s {
        Some(t) => t,
        None => Seq::empty(),
    }
}

/// The integer, or zero where it is missing.
pub open spec fn or_zero(n: Option<i64>) -> i64 {
    match n {
        Some(i) => i,
        None => 0,
    }
}

/// The shared split of a `usage` object: input tokens that no cache held, output tokens, cached ones.
pub open spec fn usage_view(u: JsonView) -> Usage {
    let input = or_zero(u.get_i64("input_tokens"@));
    let cached = match u.get("input_tokens_details"@) {
        Some(d) => or_zero(d.get_i64("cached_tokens"@)),
        None => 0,
    };
    Usage {
        input: if input - cached < 0 {
            0
        } else if input - cached > i64::MAX {
            i64::MAX
        } else {
            (input - cached) as i64
        },
        output: or_zero(u.get_i64("output_tokens"@)),
        cache_read: cached,
        cache_write: 0,
    }
}

/// The `usage` object of a terminal event: of its response, else its own.
pub open spec fn usage_of(v: JsonView) -> Usage {
    match v.get2("response"@, "usage"@) {
        Some(u) => usage_view(u),
        None => match v.get("usage"@) {
            Some(u) => usage_view(u),
            None => sse::no_usage(),
        },
    }
}

/// The id of a terminal event's response, else its own id.
pub open spec fn response_id_of(v: JsonView) -> Option<Seq<char>> {
    let inner = match v.get2("response"@, "id"@) {
        Some(i) => i.as_str(),
        None => None,
    };
    match inner {
        Some(s) => Some(s),
        None => v.get_str("id"@),
    }
}

/// Whether a rate-limit event says that the limit is reached.
pub open spec fn limit_reached(v: JsonView) -> bool {
    ||| v.get_bool("limit_reached"@) == Some(true)
    ||| match v.get("rate_limits"@) {
        Some(r) => r.get_bool("limit_reached"@) == Some(true),
        None => false,
    }
}

/// The message of an error event: of its `error`, else of its response's `error`, else its own.
pub open spec fn error_text(v: JsonView) -> Seq<char> {
    let own = match v.get("error"@) {
        Some(e) => e.get_str("message"@),
        None => None,
    };
    let nested = match v.get2("response"@, "error"@) {
        Some(e) => e.get_str("message"@),
        None => None,
    };
    if own is Some {
        own->0
    } else if nested is Some {
        nested->0
    } else {
        match v.get_str("message"@) {
            Some(s) => s,
            None => "upstream error"@,
        }
    }
}

/// The turn ends: the open block closes and a `Finish` goes out, unless the turn has ended before.
pub open spec fn terminal(t: Turn, v: JsonView, incomplete: bool) -> Step {
    if t.terminal_seen {
        stay(t)
    } else {
        let s = closed_block(t);
        Step {
            turn: Turn { terminal_seen: true, ..s.turn },
            out: s.out.push(
                EventView::Finish {
                    stop_reason: if incomplete {
                        StopReason::MaxTokens
                    } else if s.turn.saw_tool_use {
                        StopReason::ToolUse
                    } else {
                        StopReason::EndTurn
                    },
                    usage: usage_of(v),
                    response_id: response_id_of(v),
                    continuation_eligible: !incomplete,
                },
            ),
        }
    }
}

/// The turn ends in an error.
pub open spec fn failed(t: Turn, message: Seq<char>) -> Step {
    Step { turn: Turn { terminal_seen: true, ..t }, out: seq![EventView::Error { message }] }
}

/// An item of the response begins.
pub open spec fn item_added(t: Turn, v: JsonView) -> Step {
    let item = match v.get("item"@) {
        Some(i) => i,
        None => JsonView::Null,
    };
    let kind = item.get_str("type"@);
    if kind == Some("message"@) {
        let s = closed_block(t);
        Step { turn: Turn { open: Open::Text, ..s.turn }, out: s.out.push(EventView::TextStart) }
    } else if kind == Some("function_call"@) {
        let s = closed_block(t);
        let id = or_empty(item.get_str("call_id"@));
        let name = or_empty(item.get_str("name"@));
        Step {
            turn: Turn {
                open: Open::Tool,
                saw_tool_use: true,
                tool_id: id,
                tool_name: name,
                tool_buf: Seq::empty(),
                tool_flushed: false,
                tool_output_index: v.get_i64("output_index"@),
                ..s.turn
            },
            out: s.out.push(EventView::ToolStart { id, name }),
        }
    } else {
        stay(t)
    }
}

/// A piece of a reasoning summary. An empty one opens no block.
pub open spec fn thinking_delta(t: Turn, delta: Seq<char>) -> Step {
    if delta.len() == 0 {
        stay(t)
    } else if t.open == Open::Thinking {
        Step { turn: t, out: seq![EventView::ThinkingDelta(delta)] }
    } else {
        let s = closed_block(t);
        Step {
            turn: Turn { open: Open::Thinking, ..s.turn },
            out: s.out.push(EventView::ThinkingStart).push(EventView::ThinkingDelta(delta)),
        }
    }
}

/// A piece of the answer's text.
pub open spec fn text_delta(t: Turn, delta: Seq<char>) -> Step {
    if t.open == Open::Text {
        Step {
            turn: Turn { text: t.text + delta, ..t },
            out: seq![EventView::TextDelta(delta)],
        }
    } else {
        let s = closed_block(t);
        Step {
            turn: Turn { open: Open::Text, text: s.turn.text + delta, ..s.turn },
            out: s.out.push(EventView::TextStart).push(EventView::TextDelta(delta)),
        }
    }
}

/// The arguments of the current tool call are complete. The text that the event carries counts where
/// no piece came before it.
pub open spec fn arguments_done(t: Turn, v: JsonView) -> Step {
    let args = v.get_str("arguments"@);
    tool_flushed(
        if t.tool_buf.len() == 0 && args is Some {
            Turn { tool_buf: args->0, ..t }
        } else {
            t
        },
    )
}

/// Whether an event that ends an item ends another item than the open tool call.
pub open spec fn ends_other_item(t: Turn, v: JsonView) -> bool {
    let done = v.get_i64("output_index"@);
    t.open == Open::Tool && done is Some && t.tool_output_index is Some && done
        != t.tool_output_index
}

/// What one value of the stream does to the turn.
pub open spec fn handled(t: Turn, v: JsonView) -> Step {
    let ty = or_empty(v.get_str("type"@));
    let delta = or_empty(v.get_str("delta"@));
    if ty == "response.output_item.added"@ {
        item_added(t, v)
    } else if ty == "response.reasoning_summary_part.added"@ {
        if t.open == Open::Thinking {
            Step { turn: t, out: seq![EventView::ThinkingDelta("\n\n"@)] }
        } else {
            stay(t)
        }
    } else if ty == "response.reasoning_summary_text.delta"@ {
        thinking_delta(t, delta)
    } else if ty == "response.output_text.delta"@ {
        text_delta(t, delta)
    } else if ty == "response.function_call_arguments.delta"@ {
        stay(Turn { tool_buf: t.tool_buf + delta, ..t })
    } else if ty == "response.function_call_arguments.done"@ {
        arguments_done(t, v)
    } else if ty == "response.output_item.done"@ {
        if ends_other_item(t, v) {
            stay(t)
        } else {
            closed_block(t)
        }
    } else if ty == "response.completed"@ || ty == "response.done"@ {
        terminal(t, v, false)
    } else if ty == "response.incomplete"@ {
        terminal(t, v, true)
    } else if ty == "codex.rate_limits"@ {
        if limit_reached(v) {
            failed(t, "rate limit reached"@)
        } else {
            stay(t)
        }
    } else if ty == "response.failed"@ || ty == "response.error"@ || ty == "error"@ {
        failed(t, error_text(v))
    } else {
        stay(t)
    }
}

/// What the values of the stream do to the turn, one after another.
pub open spec fn handled_all(t: Turn, vs: Seq<JsonView>) -> Step
    decreases vs.len(),
{
    if vs.len() == 0 {
        stay(t)
    } else {
        let before = handled_all(t, vs.drop_last());
        let last = handled(before.turn, vs.last());
        Step { turn: last.turn, out: before.out + last.out }
    }
}

/// The stream ends: the open block closes, and where the turn has not ended yet, it ends now, with
/// nothing to continue from.
pub open spec fn finished(t: Turn) -> Step {
    let s = closed_block(t);
    if s.turn.terminal_seen {
        s
    } else {
        Step {
            turn: Turn { terminal_seen: true, ..s.turn },
            out: s.out.push(
                EventView::Finish {
                    stop_reason: StopReason::EndTurn,
                    usage: sse::no_usage(),
                    response_id: None,
                    continuation_eligible: false,
                },
            ),
        }
    }
}

// ---------------------------------------------------------------------------------------------
// The reducer
// ---------------------------------------------------------------------------------------------

/// Reads the stream of one turn and says what happened in it.
#[derive(Debug)]
pub struct Reducer {
    parser: SseLineParser,
    open: Open,
    saw_tool_use: bool,
    tool_name: String,
    tool_id: String,
    tool_buf: String,
    tool_flushed: bool,
    tool_output_index: Option<i64>,
    terminal_seen: bool,
    current_assistant_text: String,
    output_items: Vec<Json>,
    rewrites: Vec<ReadOffsetRewrite>,
}

impl Reducer {
    /// What this reducer knows of the turn.
    pub closed spec fn turn(&self) -> Turn {
        Turn {
            open: self.open,
            saw_tool_use: self.saw_tool_use,
            tool_name: self.tool_name@,
            tool_id: self.tool_id@,
            tool_buf: self.tool_buf@,
            tool_flushed: self.tool_flushed,
            tool_output_index: self.tool_output_index,
            terminal_seen: self.terminal_seen,
            text: self.current_assistant_text@,
            items: json::jsons(self.output_items@),
            rewrites: read_rewrite::rewrites_view(self.rewrites@),
        }
    }

    /// The bytes of the line that is still open.
    pub closed spec fn rest(&self) -> Seq<u8> {
        self.parser@
    }

    pub fn new(_model: &str) -> (r: Reducer)
        ensures
            r.turn() == fresh_turn(),
            r.rest() == Seq::<u8>::empty(),
    {
        let r = Reducer {
            parser: SseLineParser::new(),
            open: Open::Nothing,
            saw_tool_use: false,
            tool_name: String::new(),
            tool_id: String::new(),
            tool_buf: String::new(),
            tool_flushed: false,
            tool_output_index: None,
            terminal_seen: false,
            current_assistant_text: String::new(),
            output_items: Vec::new(),
            rewrites: Vec::new(),
        };
        assert(r.turn() =~= fresh_turn());
        r
    }

    /// Whether the turn has ended.
    pub fn terminal_seen(&self) -> (r: bool)
        ensures
            r == self.turn().terminal_seen,
    {
        self.terminal_seen
    }

    /// Makes the pending text a message item.
    fn flush_current_text(&mut self)
        ensures
            final(self).turn() == text_flushed(old(self).turn()),
            final(self).rest() == old(self).rest(),
    {
        if !self.current_assistant_text.as_str().is_empty() {
            let mut pending = String::new();
            std::mem::swap(&mut pending, &mut self.current_assistant_text);
            let part = items::text_part("output_text", pending.as_str());
            let mut content: Vec<Json> = Vec::new();
            content.push(part);
            assert(json::jsons(content@) =~= seq![part@]);
            let ghost before = json::jsons(self.output_items@);
            let item = items::message("assistant", content);
            self.output_items.push(item);
            assert(json::jsons(self.output_items@) =~= before.push(item@));
            assert(self.turn() =~= text_flushed(old(self).turn()));
        }
    }

    /// Sends out the buffered arguments of the current tool call, once.
    fn flush_tool(&mut self, out: &mut Vec<ReduceEvent>)
        ensures
            final(self).turn() == tool_flushed(old(self).turn()).turn,
            sse::events(final(out)@) == sse::events(old(out)@) + tool_flushed(old(self).turn()).out,
            final(self).rest() == old(self).rest(),
    {
        if self.tool_flushed {
            assert(sse::events(out@) =~= sse::events(out@) + Seq::<EventView>::empty());
            return;
        }
        self.tool_flushed = true;
        let clean = read_rewrite::sanitize_read_args(
            self.tool_name.as_str(),
            self.tool_buf.as_str(),
        );
        match clean.removed {
            Some(offset) => {
                let rw = ReadOffsetRewrite { call_id: self.tool_id.clone(), offset };
                let ghost before = read_rewrite::rewrites_view(self.rewrites@);
                self.rewrites.push(rw);
                assert(read_rewrite::rewrites_view(self.rewrites@) =~= before.push(rw@));
            },
            None => {},
        }
        let empty = clean.args.as_str().is_empty();
        if !empty {
            sse::emit(out, ReduceEvent::ToolDelta(clean.args.clone()));
        }
        if !self.tool_name.as_str().is_empty() {
            let args = if empty {
                self.tool_buf.as_str()
            } else {
                clean.args.as_str()
            };
            let item = items::function_call(self.tool_id.as_str(), self.tool_name.as_str(), args);
            let ghost before = json::jsons(self.output_items@);
            self.output_items.push(item);
            assert(json::jsons(self.output_items@) =~= before.push(item@));
        }
        assert(self.turn() =~= tool_flushed(old(self).turn()).turn);
        assert(sse::events(out@) =~= sse::events(old(out)@) + tool_flushed(old(self).turn()).out);
    }

    /// Closes whatever block is open.
    fn close_open(&mut self, out: &mut Vec<ReduceEvent>)
        ensures
            final(self).turn() == closed_block(old(self).turn()).turn,
            sse::events(final(out)@) == sse::events(old(out)@) + closed_block(old(self).turn()).out,
            final(self).rest() == old(self).rest(),
    {
        match self.open {
            Open::Nothing => {},
            Open::Thinking => sse::emit(out, ReduceEvent::ThinkingStop),
            Open::Text => {
                self.flush_current_text();
                sse::emit(out, ReduceEvent::TextStop);
            },
            Open::Tool => {
                self.flush_tool(out);
                sse::emit(out, ReduceEvent::ToolStop);
            },
        }
        self.open = Open::Nothing;
        assert(self.turn() =~= closed_block(old(self).turn()).turn);
        assert(sse::events(out@) =~= sse::events(old(out)@) + closed_block(old(self).turn()).out);
    }

    /// Ends the turn.
    fn finish_terminal(&mut self, v: &Json, incomplete: bool, out: &mut Vec<ReduceEvent>)
        ensures
            final(self).turn() == terminal(old(self).turn(), v@, incomplete).turn,
            sse::events(final(out)@) == sse::events(old(out)@) + terminal(
                old(self).turn(),
                v@,
                incomplete,
            ).out,
            final(self).rest() == old(self).rest(),
    {
        if self.terminal_seen {
            assert(sse::events(out@) =~= sse::events(out@) + Seq::<EventView>::empty());
            return;
        }
        self.close_open(out);
        let stop_reason = if incomplete {
            StopReason::MaxTokens
        } else if self.saw_tool_use {
            StopReason::ToolUse
        } else {
            StopReason::EndTurn
        };
        self.terminal_seen = true;
        let e = ReduceEvent::Finish {
            stop_reason,
            usage: terminal_usage(v),
            response_id: terminal_response_id(v),
            continuation_eligible: !incomplete,
        };
        sse::emit(out, e);
        assert(self.turn() =~= terminal(old(self).turn(), v@, incomplete).turn);
        assert(sse::events(out@) =~= sse::events(old(out)@) + terminal(
            old(self).turn(),
            v@,
            incomplete,
        ).out);
    }

    /// Takes the start of an item.
    fn add_item(&mut self, v: &Json, out: &mut Vec<ReduceEvent>)
        ensures
            final(self).turn() == item_added(old(self).turn(), v@).turn,
            sse::events(final(out)@) == sse::events(old(out)@) + item_added(
                old(self).turn(),
                v@,
            ).out,
            final(self).rest() == old(self).rest(),
    {
        let nothing = Json::Null;
        let item = match v.get("item") {
            Some(i) => i,
            None => &nothing,
        };
        let kind = match item.get_str("type") {
            Some(k) => k,
            None => {
                assert(sse::events(out@) =~= sse::events(out@) + Seq::<EventView>::empty());
                return;
            },
        };
        if text::same(kind, "message") {
            self.close_open(out);
            sse::emit(out, ReduceEvent::TextStart);
            self.open = Open::Text;
        } else if text::same(kind, "function_call") {
            self.close_open(out);
            self.saw_tool_use = true;
            self.tool_id = text_or_empty(item.get_str("call_id"));
            self.tool_name = text_or_empty(item.get_str("name"));
            self.tool_buf = String::new();
            self.tool_flushed = false;
            self.tool_output_index = v.get_i64("output_index");
            sse::emit(
                out,
                ReduceEvent::ToolStart { id: self.tool_id.clone(), name: self.tool_name.clone() },
            );
            self.open = Open::Tool;
        }
        assert(self.turn() =~= item_added(old(self).turn(), v@).turn);
        assert(sse::events(out@) =~= sse::events(old(out)@) + item_added(
            old(self).turn(),
            v@,
        ).out);
    }

    /// Takes a piece of a reasoning summary.
    fn add_thinking(&mut self, delta: &str, out: &mut Vec<ReduceEvent>)
        ensures
            final(self).turn() == thinking_delta(old(self).turn(), delta@).turn,
            sse::events(final(out)@) == sse::events(old(out)@) + thinking_delta(
                old(self).turn(),
                delta@,
            ).out,
            final(self).rest() == old(self).rest(),
    {
        if !delta.is_empty() {
            if self.open != Open::Thinking {
                self.close_open(out);
                sse::emit(out, ReduceEvent::ThinkingStart);
                self.open = Open::Thinking;
            }
            sse::emit(out, ReduceEvent::ThinkingDelta(delta.to_owned()));
        }
        assert(self.turn() =~= thinking_delta(old(self).turn(), delta@).turn);
        assert(sse::events(out@) =~= sse::events(old(out)@) + thinking_delta(
            old(self).turn(),
            delta@,
        ).out);
    }

    /// Takes a piece of the answer's text.
    fn add_text(&mut self, delta: &str, out: &mut Vec<ReduceEvent>)
        ensures
            final(self).turn() == text_delta(old(self).turn(), delta@).turn,
            sse::events(final(out)@) == sse::events(old(out)@) + text_delta(
                old(self).turn(),
                delta@,
            ).out,
            final(self).rest() == old(self).rest(),
    {
        if self.open != Open::Text {
            self.close_open(out);
            sse::emit(out, ReduceEvent::TextStart);
            self.open = Open::Text;
        }
        self.current_assistant_text.append(delta);
        sse::emit(out, ReduceEvent::TextDelta(delta.to_owned()));
        assert(self.turn() =~= text_delta(old(self).turn(), delta@).turn);
        assert(sse::events(out@) =~= sse::events(old(out)@) + text_delta(
            old(self).turn(),
            delta@,
        ).out);
    }

    /// Takes one value of the stream.
    pub fn handle(&mut self, v: &Json, out: &mut Vec<ReduceEvent>)
        ensures
            final(self).turn() == handled(old(self).turn(), v@).turn,
            sse::events(final(out)@) == sse::events(old(out)@) + handled(old(self).turn(), v@).out,
            final(self).rest() == old(self).rest(),
    {
        assert(sse::events(out@) =~= sse::events(out@) + Seq::<EventView>::empty());
        let ty = str_or_empty(v.get_str("type"));
        let delta = str_or_empty(v.get_str("delta"));
        if text::same(ty, "response.output_item.added") {
            self.add_item(v, out);
        } else if text::same(ty, "response.reasoning_summary_part.added") {
            if self.open == Open::Thinking {
                sse::emit(out, ReduceEvent::ThinkingDelta("\n\n".to_owned()));
                assert(sse::events(out@) =~= sse::events(old(out)@) + handled(
                    old(self).turn(),
                    v@,
                ).out);
            }
        } else if text::same(ty, "response.reasoning_summary_text.delta") {
            self.add_thinking(delta, out);
        } else if text::same(ty, "response.output_text.delta") {
            self.add_text(delta, out);
        } else if text::same(ty, "response.function_call_arguments.delta") {
            self.tool_buf.append(delta);
            assert(self.turn() =~= handled(old(self).turn(), v@).turn);
        } else if text::same(ty, "response.function_call_arguments.done") {
            if self.tool_buf.as_str().is_empty() {
                match v.get_str("arguments") {
                    Some(args) => {
                        self.tool_buf = args.to_owned();
                    },
                    None => {},
                }
            }
            let ghost filled = Turn { tool_buf: self.tool_buf@, ..old(self).turn() };
            assert(self.turn() =~= filled);
            assert(old(self).turn().tool_buf == self.tool_buf@ ==> filled =~= old(self).turn());
            self.flush_tool(out);
        } else if text::same(ty, "response.output_item.done") {
            if self.done_elsewhere(v) {
                return;
            }
            self.close_open(out);
        } else if text::same(ty, "response.completed") || text::same(ty, "response.done") {
            self.finish_terminal(v, false, out);
        } else if text::same(ty, "response.incomplete") {
            self.finish_terminal(v, true, out);
        } else if text::same(ty, "codex.rate_limits") {
            if rate_limited(v) {
                self.fail("rate limit reached".to_owned(), out);
            }
        } else if text::same(ty, "response.failed") || text::same(ty, "response.error")
            || text::same(ty, "error") {
            self.fail(error_message(v), out);
        }
    }

    /// Whether an event that ends an item ends another item than the open tool call.
    fn done_elsewhere(&self, v: &Json) -> (r: bool)
        ensures
            r == ends_other_item(self.turn(), v@),
    {
        if self.open != Open::Tool {
            return false;
        }
        match (v.get_i64("output_index"), self.tool_output_index) {
            (Some(done), Some(own)) => done != own,
            _ => false,
        }
    }

    /// Ends the turn in an error.
    fn fail(&mut self, message: String, out: &mut Vec<ReduceEvent>)
        ensures
            final(self).turn() == failed(old(self).turn(), message@).turn,
            sse::events(final(out)@) == sse::events(old(out)@) + failed(
                old(self).turn(),
                message@,
            ).out,
            final(self).rest() == old(self).rest(),
    {
        self.terminal_seen = true;
        sse::emit(out, ReduceEvent::Error { message });
        assert(self.turn() =~= failed(old(self).turn(), message@).turn);
        assert(sse::events(out@) =~= sse::events(old(out)@) + failed(
            old(self).turn(),
            message@,
        ).out);
    }

    /// Takes the next bytes of the stream and gives the events that they bring.
    pub fn push(&mut self, chunk: &[u8]) -> (r: Vec<ReduceEvent>)
        ensures
            ({
                let fed = sse::feed(old(self).rest(), chunk@);
                let step = handled_all(old(self).turn(), fed.values);
                &&& sse::events(r@) == step.out
                &&& final(self).turn() == step.turn
                &&& final(self).rest() == fed.rest
            }),
    {
        let ghost fed = sse::feed(self.rest(), chunk@);
        let ghost start = self.turn();
        let values = self.parser.push(chunk);
        let ghost all = json::jsons(values@);
        let mut out: Vec<ReduceEvent> = Vec::new();
        let mut i: usize = 0;
        assert(self.turn() =~= start);
        assert(all.take(0) =~= Seq::<JsonView>::empty());
        assert(sse::events(out@) =~= Seq::<EventView>::empty());
        while i < values.len()
            invariant
                i <= values@.len(),
                all == json::jsons(values@),
                self.rest() == fed.rest,
                self.turn() == handled_all(start, all.take(i as int)).turn,
                sse::events(out@) == handled_all(start, all.take(i as int)).out,
            decreases values@.len() - i,
        {
            assert(all.take(i + 1).drop_last() =~= all.take(i as int));
            assert(all.take(i + 1).last() == values@[i as int]@);
            self.handle(&values[i], &mut out);
            i = i + 1;
        }
        assert(all.take(all.len() as int) =~= all);
        out
    }

    /// Ends the stream: closes the open block, and ends the turn where nothing has ended it.
    pub fn finish(&mut self) -> (r: Vec<ReduceEvent>)
        ensures
            sse::events(r@) == finished(old(self).turn()).out,
            final(self).turn() == finished(old(self).turn()).turn,
            final(self).rest() == old(self).rest(),
    {
        let mut out: Vec<ReduceEvent> = Vec::new();
        assert(sse::events(out@) =~= Seq::<EventView>::empty());
        self.close_open(&mut out);
        assert(sse::events(out@) =~= closed_block(old(self).turn()).out);
        if !self.terminal_seen {
            self.terminal_seen = true;
            sse::emit(
                &mut out,
                ReduceEvent::Finish {
                    stop_reason: StopReason::EndTurn,
                    usage: Usage::default(),
                    response_id: None,
                    continuation_eligible: false,
                },
            );
        }
        assert(self.turn() =~= finished(old(self).turn()).turn);
        out
    }

    /// Takes the items of the answer that have gathered so far, pending text and all.
    pub fn take_output_items(&mut self) -> (r: Vec<Json>)
        ensures
            json::jsons(r@) == text_flushed(old(self).turn()).items,
            final(self).turn() == (Turn {
                items: Seq::empty(),
                ..text_flushed(old(self).turn())
            }),
            final(self).rest() == old(self).rest(),
    {
        self.flush_current_text();
        let ghost flushed = self.turn();
        let mut taken: Vec<Json> = Vec::new();
        std::mem::swap(&mut taken, &mut self.output_items);
        assert(json::jsons(self.output_items@) =~= Seq::<JsonView>::empty());
        assert(self.turn() =~= (Turn { items: Seq::empty(), ..flushed }));
        taken
    }

    /// Takes the repairs of tool calls that have gathered so far.
    pub fn take_rewrites(&mut self) -> (r: Vec<ReadOffsetRewrite>)
        ensures
            read_rewrite::rewrites_view(r@) == old(self).turn().rewrites,
            final(self).turn() == (Turn { rewrites: Seq::empty(), ..old(self).turn() }),
            final(self).rest() == old(self).rest(),
    {
        let mut taken: Vec<ReadOffsetRewrite> = Vec::new();
        std::mem::swap(&mut taken, &mut self.rewrites);
        assert(read_rewrite::rewrites_view(self.rewrites@) =~= Seq::<RewriteView>::empty());
        assert(self.turn() =~= (Turn { rewrites: Seq::empty(), ..old(self).turn() }));
        taken
    }
}

/// `s`, or nothing where it is missing.
fn str_or_empty<'a>(s: Option<&'a str>) -> (r: &'a str)
    ensures
        r@ == match s {
            Some(t) => t@,
            None => Seq::<char>::empty(),
        },
{
    proof {
        reveal_strlit("");
        assert(""@ =~= Seq::<char>::empty());
    }
    match s {
        Some(t) => t,
        None => "",
    }
}

/// `s`, or nothing where it is missing.
fn text_or_empty(s: Option<&str>) -> (r: String)
    ensures
        r@ == match s {
            Some(t) => t@,
            None => Seq::<char>::empty(),
        },
{
    str_or_empty(s).to_owned()
}

/// Whether a rate-limit event says that the limit is reached.
pub fn rate_limited(v: &Json) -> (r: bool)
    ensures
        r == limit_reached(v@),
{
    if v.get_bool("limit_reached") == Some(true) {
        return true;
    }
    match v.get("rate_limits") {
        Some(l) => l.get_bool("limit_reached") == Some(true),
        None => false,
    }
}

/// The message of an error event.
pub fn error_message(v: &Json) -> (r: String)
    ensures
        r@ == error_text(v@),
{
    match v.get("error") {
        Some(e) => match e.get_str("message") {
            Some(s) => {
                return s.to_owned();
            },
            None => {},
        },
        None => {},
    }
    match v.get2("response", "error") {
        Some(e) => match e.get_str("message") {
            Some(s) => {
                return s.to_owned();
            },
            None => {},
        },
        None => {},
    }
    match v.get_str("message") {
        Some(s) => s.to_owned(),
        None => "upstream error".to_owned(),
    }
}

fn int_or_zero(n: Option<i64>) -> (r: i64)
    ensures
        r == or_zero(n),
{
    match n {
        Some(i) => i,
        None => 0,
    }
}

/// The shared split of a `usage` object.
pub fn map_usage(u: &Json) -> (r: Usage)
    ensures
        r == usage_view(u@),
{
    let input: i64 = int_or_zero(u.get_i64("input_tokens"));
    let cached: i64 = match u.get("input_tokens_details") {
        Some(d) => int_or_zero(d.get_i64("cached_tokens")),
        None => 0,
    };
    let fresh: i128 = input as i128 - cached as i128;
    Usage {
        input: if fresh < 0 {
            0
        } else if fresh > i64::MAX as i128 {
            i64::MAX
        } else {
            fresh as i64
        },
        output: int_or_zero(u.get_i64("output_tokens")),
        cache_read: cached,
        cache_write: 0,
    }
}

/// The usage of a terminal event.
fn terminal_usage(v: &Json) -> (r: Usage)
    ensures
        r == usage_of(v@),
{
    match v.get2("response", "usage") {
        Some(u) => map_usage(u),
        None => match v.get("usage") {
            Some(u) => map_usage(u),
            None => Usage::default(),
        },
    }
}

/// The response id of a terminal event.
fn terminal_response_id(v: &Json) -> (r: Option<String>)
    ensures
        sse::text_option(r) == response_id_of(v@),
{
    match v.get2("response", "id") {
        Some(i) => match i.as_str() {
            Some(s) => {
                return Some(s.to_owned());
            },
            None => {},
        },
        None => {},
    }
    match v.get_str("id") {
        Some(s) => Some(s.to_owned()),
        None => None,
    }
}

} // verus!
