//! What a client is told of a stream: the thoughts, the answer, the calls and the end, as the values
//! of the stream say them.
use crate::codex::items;
use crate::codex::laws;
use crate::codex::read_rewrite;
use crate::codex::reducer;
use crate::codex::reducer::{Open, Step, Turn};
use crate::codex::sse;
use crate::codex::sse::{EventView, StopReason, Usage};
use crate::json;
use crate::json::JsonView;
use vstd::prelude::*;

verus! {

/// The value is of the kind.
pub open spec fn is_kind(v: JsonView, kind: Seq<char>) -> bool {
    v.get_str("type"@) == Some(kind)
}

/// The names of the kinds differ.
proof fn lemma_kind_names()
    ensures
        "response.output_item.added"@.len() == 26,
        "response.reasoning_summary_part.added"@.len() == 37,
        "response.reasoning_summary_text.delta"@.len() == 37,
        "response.output_text.delta"@.len() == 26,
        "response.function_call_arguments.delta"@.len() == 38,
        "response.function_call_arguments.done"@.len() == 37,
        "response.output_item.done"@.len() == 25,
        "response.completed"@.len() == 18,
        "response.done"@.len() == 13,
        "response.incomplete"@.len() == 19,
        "codex.rate_limits"@.len() == 17,
        "response.failed"@.len() == 15,
        "response.error"@.len() == 14,
        "error"@.len() == 5,
        "response.output_item.added"@ != "response.output_text.delta"@,
        "response.reasoning_summary_part.added"@ != "response.reasoning_summary_text.delta"@,
        "response.reasoning_summary_part.added"@ != "response.function_call_arguments.done"@,
        "response.reasoning_summary_text.delta"@ != "response.function_call_arguments.done"@,
{
    reveal_strlit("response.output_item.added");
    reveal_strlit("response.reasoning_summary_part.added");
    reveal_strlit("response.reasoning_summary_text.delta");
    reveal_strlit("response.output_text.delta");
    reveal_strlit("response.function_call_arguments.delta");
    reveal_strlit("response.function_call_arguments.done");
    reveal_strlit("response.output_item.done");
    reveal_strlit("response.completed");
    reveal_strlit("response.done");
    reveal_strlit("response.incomplete");
    reveal_strlit("codex.rate_limits");
    reveal_strlit("response.failed");
    reveal_strlit("response.error");
    reveal_strlit("error");
    assert("response.output_item.added"@[16] != "response.output_text.delta"@[16]);
    assert("response.reasoning_summary_part.added"@[27]
        != "response.reasoning_summary_text.delta"@[27]);
    assert("response.reasoning_summary_part.added"@[9]
        != "response.function_call_arguments.done"@[9]);
    assert("response.reasoning_summary_text.delta"@[9]
        != "response.function_call_arguments.done"@[9]);
}

// ---------------------------------------------------------------------------------------------
// Thoughts and text
// ---------------------------------------------------------------------------------------------

/// The thoughts in a list of events, one after another.
pub open spec fn thought(es: Seq<EventView>) -> Seq<char>
    decreases es.len(),
{
    if es.len() == 0 {
        Seq::empty()
    } else {
        match es.last() {
            EventView::ThinkingDelta(s) => thought(es.drop_last()) + s,
            _ => thought(es.drop_last()),
        }
    }
}

/// Whether a thinking block is open after the events: one has started, and none has stopped since.
pub open spec fn is_thinking(es: Seq<EventView>) -> bool
    decreases es.len(),
{
    if es.len() == 0 {
        false
    } else {
        match es.last() {
            EventView::ThinkingStart => true,
            EventView::ThinkingStop => false,
            _ => is_thinking(es.drop_last()),
        }
    }
}

/// What one value adds to the thoughts: its piece of a summary, or an empty line where a part of a
/// summary begins while a thinking block is open.
pub open spec fn thought_in(v: JsonView, thinking: bool) -> Seq<char> {
    if is_kind(v, "response.reasoning_summary_text.delta"@) {
        match v.get_str("delta"@) {
            Some(d) => d,
            None => Seq::empty(),
        }
    } else if is_kind(v, "response.reasoning_summary_part.added"@) && thinking {
        "\n\n"@
    } else {
        Seq::empty()
    }
}

/// The thoughts of a stream, from its first value on.
pub open spec fn thoughts_in(vs: Seq<JsonView>) -> Seq<char>
    decreases vs.len(),
{
    if vs.len() == 0 {
        Seq::empty()
    } else {
        let most = vs.drop_last();
        thoughts_in(most) + thought_in(
            vs.last(),
            is_thinking(reducer::handled_all(reducer::fresh_turn(), most).out),
        )
    }
}

/// The pieces of the answer's text that the values bring, one after another.
pub open spec fn text_in(vs: Seq<JsonView>) -> Seq<char>
    decreases vs.len(),
{
    if vs.len() == 0 {
        Seq::empty()
    } else {
        text_in(vs.drop_last()) + if is_kind(vs.last(), "response.output_text.delta"@) {
            match vs.last().get_str("delta"@) {
                Some(d) => d,
                None => Seq::empty(),
            }
        } else {
            Seq::empty()
        }
    }
}

/// The tool calls that a list of events starts, with their ids and names.
pub open spec fn started(es: Seq<EventView>) -> Seq<(Seq<char>, Seq<char>)>
    decreases es.len(),
{
    if es.len() == 0 {
        Seq::empty()
    } else {
        match es.last() {
            EventView::ToolStart { id, name } => started(es.drop_last()).push((id, name)),
            _ => started(es.drop_last()),
        }
    }
}

/// The tool calls that the values begin, with their ids and names.
pub open spec fn calls_in(vs: Seq<JsonView>) -> Seq<(Seq<char>, Seq<char>)>
    decreases vs.len(),
{
    if vs.len() == 0 {
        Seq::empty()
    } else {
        let before = calls_in(vs.drop_last());
        let v = vs.last();
        if laws::begins_tool_call(v) {
            let item = v.get("item"@)->0;
            before.push(
                (
                    match item.get_str("call_id"@) {
                        Some(id) => id,
                        None => Seq::empty(),
                    },
                    match item.get_str("name"@) {
                        Some(name) => name,
                        None => Seq::empty(),
                    },
                ),
            )
        } else {
            before
        }
    }
}

proof fn lemma_push(es: Seq<EventView>, e: EventView)
    ensures
        thought(es.push(e)) == match e {
            EventView::ThinkingDelta(s) => thought(es) + s,
            _ => thought(es),
        },
        laws::said(es.push(e)) == match e {
            EventView::TextDelta(s) => laws::said(es) + s,
            _ => laws::said(es),
        },
        started(es.push(e)) == match e {
            EventView::ToolStart { id, name } => started(es).push((id, name)),
            _ => started(es),
        },
        is_thinking(es.push(e)) == match e {
            EventView::ThinkingStart => true,
            EventView::ThinkingStop => false,
            _ => is_thinking(es),
        },
{
    assert(es.push(e).drop_last() =~= es);
}

proof fn lemma_add(a: Seq<EventView>, b: Seq<EventView>)
    ensures
        thought(a + b) == thought(a) + thought(b),
        laws::said(a + b) == laws::said(a) + laws::said(b),
        started(a + b) == started(a) + started(b),
    decreases b.len(),
{
    if b.len() == 0 {
        assert(a + b =~= a);
        assert(thought(a) + thought(b) =~= thought(a));
        assert(laws::said(a) + laws::said(b) =~= laws::said(a));
        assert(started(a) + started(b) =~= started(a));
    } else {
        let most = b.drop_last();
        lemma_add(a, most);
        assert(a + b =~= (a + most).push(b.last()));
        assert(b =~= most.push(b.last()));
        lemma_push(a + most, b.last());
        lemma_push(most, b.last());
        match b.last() {
            EventView::ThinkingDelta(s) => {
                assert((thought(a) + thought(most)) + s =~= thought(a) + (thought(most) + s));
            },
            EventView::TextDelta(s) => {
                assert((laws::said(a) + laws::said(most)) + s =~= laws::said(a) + (laws::said(most)
                    + s));
            },
            EventView::ToolStart { id, name } => {
                assert((started(a) + started(most)).push((id, name)) =~= started(a) + started(
                    most,
                ).push((id, name)));
            },
            _ => {},
        }
    }
}

/// Closing a block tells nothing new.
proof fn lemma_closing_tells_nothing(t: Turn)
    ensures
        ({
            let s = reducer::closed_block(t);
            &&& thought(s.out) == Seq::<char>::empty()
            &&& laws::said(s.out) == Seq::<char>::empty()
            &&& started(s.out).len() == 0
            &&& !is_thinking(s.out)
            &&& s.turn.open == Open::Nothing
            &&& t.open == Open::Thinking ==> s.out == seq![EventView::ThinkingStop]
        }),
        ({
            let s = reducer::tool_flushed(t);
            &&& thought(s.out) == Seq::<char>::empty()
            &&& laws::said(s.out) == Seq::<char>::empty()
            &&& started(s.out).len() == 0
            &&& !is_thinking(s.out)
            &&& s.turn.open == t.open
        }),
{
    reveal_with_fuel(thought, 3);
    reveal_with_fuel(laws::said, 3);
    reveal_with_fuel(started, 3);
    reveal_with_fuel(is_thinking, 3);
}

/// What one value makes a client hear, given whether a thinking block is open.
proof fn lemma_one_value_tells(t: Turn, v: JsonView)
    ensures
        ({
            let out = reducer::handled(t, v).out;
            &&& thought(out) == thought_in(v, t.open == Open::Thinking)
            &&& laws::said(out) == text_in(seq![v])
            &&& started(out) == calls_in(seq![v])
        }),
{
    let s = reducer::handled(t, v);
    let c = reducer::closed_block(t);
    let none = Seq::<EventView>::empty();
    let nothing = Seq::<char>::empty();
    let args = v.get_str("arguments"@);
    let delta = reducer::or_empty(v.get_str("delta"@));
    lemma_kind_names();
    lemma_closing_tells_nothing(t);
    lemma_closing_tells_nothing(
        if t.tool_buf.len() == 0 && args is Some {
            Turn { tool_buf: args->0, ..t }
        } else {
            t
        },
    );
    reveal_strlit("message");
    reveal_strlit("function_call");
    assert("message"@.len() != "function_call"@.len());
    assert(seq![v].drop_last() =~= Seq::<JsonView>::empty());
    assert(text_in(Seq::<JsonView>::empty()) == nothing);
    assert(calls_in(Seq::<JsonView>::empty()) =~= Seq::<(Seq<char>, Seq<char>)>::empty());
    assert(thought(none) == nothing && laws::said(none) == nothing);
    assert(started(none) =~= Seq::<(Seq<char>, Seq<char>)>::empty());
    assert(nothing + delta =~= delta);
    assert(nothing + nothing =~= nothing);
    assert(nothing + "\n\n"@ =~= "\n\n"@);
    assert(started(c.out) =~= Seq::<(Seq<char>, Seq<char>)>::empty());
    if s.out.len() > 0 {
        let most = s.out.drop_last();
        assert(s.out =~= most.push(s.out.last()));
        lemma_push(most, s.out.last());
        if most.len() > 0 {
            assert(most =~= most.drop_last().push(most.last()));
            lemma_push(most.drop_last(), most.last());
            if most =~= c.out {
            } else if most.drop_last() =~= c.out {
            }
        } else {
            assert(most =~= none);
        }
    }
    if reducer::or_empty(v.get_str("type"@)) == "response.reasoning_summary_text.delta"@
        && delta.len() == 0 {
        assert(delta =~= nothing);
    }
    assert(started(s.out) =~= calls_in(seq![v]));
}

/// The step shows in its events whether a thinking block is open after it.
spec fn shows(seen: Seq<EventView>, s: Step) -> bool {
    is_thinking(seen + s.out) == (s.turn.open == Open::Thinking)
}

proof fn lemma_pushed(seen: Seq<EventView>, es: Seq<EventView>, e: EventView)
    ensures
        is_thinking(seen + es.push(e)) == match e {
            EventView::ThinkingStart => true,
            EventView::ThinkingStop => false,
            _ => is_thinking(seen + es),
        },
{
    assert(seen + es.push(e) =~= (seen + es).push(e));
    lemma_push(seen + es, e);
}

proof fn lemma_flushing_shows(t: Turn, seen: Seq<EventView>)
    requires
        is_thinking(seen) == (t.open == Open::Thinking),
    ensures
        shows(seen, reducer::stay(t)),
        shows(seen, reducer::tool_flushed(t)),
        shows(seen, reducer::closed_block(t)),
{
    let none = Seq::<EventView>::empty();
    assert(seen + none =~= seen);
    let f = reducer::tool_flushed(t);
    if f.out.len() > 0 {
        assert(f.out =~= none.push(f.out[0]));
        lemma_pushed(seen, none, f.out[0]);
    } else {
        assert(f.out =~= none);
    }
    let c = reducer::closed_block(t);
    match t.open {
        Open::Nothing => {},
        Open::Thinking => {
            lemma_pushed(seen, none, EventView::ThinkingStop);
            assert(c.out =~= none.push(EventView::ThinkingStop));
        },
        Open::Text => {
            lemma_pushed(seen, none, EventView::TextStop);
            assert(c.out =~= none.push(EventView::TextStop));
        },
        Open::Tool => {
            lemma_pushed(seen, f.out, EventView::ToolStop);
        },
    }
}

proof fn lemma_steps_show(t: Turn, v: JsonView, delta: Seq<char>, seen: Seq<EventView>)
    requires
        is_thinking(seen) == (t.open == Open::Thinking),
    ensures
        shows(seen, reducer::item_added(t, v)),
        shows(seen, reducer::thinking_delta(t, delta)),
        shows(seen, reducer::text_delta(t, delta)),
{
    let none = Seq::<EventView>::empty();
    let c = reducer::closed_block(t);
    lemma_flushing_shows(t, seen);
    let added = reducer::item_added(t, v);
    if added.out.len() > 0 {
        lemma_pushed(seen, c.out, added.out.last());
        assert(added.out =~= c.out.push(added.out.last()));
    } else {
        assert(added =~= reducer::stay(t));
    }
    let thought = EventView::ThinkingDelta(delta);
    assert(seq![thought] =~= none.push(thought));
    lemma_pushed(seen, none, thought);
    lemma_pushed(seen, c.out, EventView::ThinkingStart);
    lemma_pushed(seen, c.out.push(EventView::ThinkingStart), thought);
    let spoken = EventView::TextDelta(delta);
    assert(seq![spoken] =~= none.push(spoken));
    lemma_pushed(seen, none, spoken);
    lemma_pushed(seen, c.out, EventView::TextStart);
    lemma_pushed(seen, c.out.push(EventView::TextStart), spoken);
}

proof fn lemma_ends_show(t: Turn, v: JsonView, incomplete: bool, message: Seq<char>, seen: Seq<EventView>)
    requires
        is_thinking(seen) == (t.open == Open::Thinking),
    ensures
        shows(seen, reducer::arguments_done(t, v)),
        shows(seen, reducer::terminal(t, v, incomplete)),
        shows(seen, reducer::failed(t, message)),
{
    let none = Seq::<EventView>::empty();
    let c = reducer::closed_block(t);
    lemma_flushing_shows(t, seen);
    let filled = if t.tool_buf.len() == 0 && v.get_str("arguments"@) is Some {
        Turn { tool_buf: v.get_str("arguments"@)->0, ..t }
    } else {
        t
    };
    lemma_flushing_shows(filled, seen);
    let end = reducer::terminal(t, v, incomplete);
    if !t.terminal_seen {
        lemma_pushed(seen, c.out, end.out.last());
        assert(end.out =~= c.out.push(end.out.last()));
    }
    let error = EventView::Error { message };
    assert(seq![error] =~= none.push(error));
    lemma_pushed(seen, none, error);
}

/// Whether a thinking block is open can be told from the events.
proof fn lemma_thinking_shows(t: Turn, v: JsonView, seen: Seq<EventView>)
    requires
        is_thinking(seen) == (t.open == Open::Thinking),
    ensures
        shows(seen, reducer::handled(t, v)),
{
    let none = Seq::<EventView>::empty();
    let delta = reducer::or_empty(v.get_str("delta"@));
    lemma_flushing_shows(t, seen);
    lemma_steps_show(t, v, delta, seen);
    lemma_ends_show(t, v, false, "rate limit reached"@, seen);
    lemma_ends_show(t, v, true, reducer::error_text(v), seen);
    let pause = EventView::ThinkingDelta("\n\n"@);
    assert(seq![pause] =~= none.push(pause));
    lemma_pushed(seen, none, pause);
    let longer = Turn { tool_buf: t.tool_buf + delta, ..t };
    lemma_flushing_shows(longer, seen);
}

proof fn lemma_thinking_of_a_stream(vs: Seq<JsonView>)
    ensures
        is_thinking(reducer::handled_all(reducer::fresh_turn(), vs).out) == (reducer::handled_all(
            reducer::fresh_turn(),
            vs,
        ).turn.open == Open::Thinking),
    decreases vs.len(),
{
    if vs.len() > 0 {
        let before = reducer::handled_all(reducer::fresh_turn(), vs.drop_last());
        lemma_thinking_of_a_stream(vs.drop_last());
        lemma_thinking_shows(before.turn, vs.last(), before.out);
    }
}

/// Over any stream, the thoughts that a client hears are the pieces of the reasoning summaries, all of
/// them and in order, with an empty line where a part begins while a thinking block is open.
pub proof fn law_every_thought_is_heard(vs: Seq<JsonView>)
    ensures
        thought(reducer::handled_all(reducer::fresh_turn(), vs).out) == thoughts_in(vs),
    decreases vs.len(),
{
    if vs.len() > 0 {
        let most = vs.drop_last();
        let before = reducer::handled_all(reducer::fresh_turn(), most);
        law_every_thought_is_heard(most);
        lemma_thinking_of_a_stream(most);
        lemma_one_value_tells(before.turn, vs.last());
        lemma_add(before.out, reducer::handled(before.turn, vs.last()).out);
    }
}

/// Over any stream, the text that a client reads is the pieces of the answer's text, all of them and
/// in order.
pub proof fn law_every_text_is_read(t: Turn, vs: Seq<JsonView>)
    ensures
        laws::said(reducer::handled_all(t, vs).out) == text_in(vs),
    decreases vs.len(),
{
    if vs.len() > 0 {
        let most = vs.drop_last();
        let before = reducer::handled_all(t, most);
        let nothing = Seq::<char>::empty();
        law_every_text_is_read(t, most);
        lemma_one_value_tells(before.turn, vs.last());
        lemma_add(before.out, reducer::handled(before.turn, vs.last()).out);
        assert(seq![vs.last()].drop_last() =~= Seq::<JsonView>::empty());
        assert(text_in(Seq::<JsonView>::empty()) == nothing);
        let piece = match vs.last().get_str("delta"@) {
            Some(d) => d,
            None => nothing,
        };
        assert(nothing + piece =~= piece);
        assert(nothing + nothing =~= nothing);
    }
}

/// Over any stream, a client is told of the tool calls that the stream begins, each once, in order,
/// with its id and its name.
pub proof fn law_every_call_is_started(t: Turn, vs: Seq<JsonView>)
    ensures
        started(reducer::handled_all(t, vs).out) == calls_in(vs),
    decreases vs.len(),
{
    if vs.len() > 0 {
        let most = vs.drop_last();
        let before = reducer::handled_all(t, most);
        law_every_call_is_started(t, most);
        lemma_one_value_tells(before.turn, vs.last());
        lemma_add(before.out, reducer::handled(before.turn, vs.last()).out);
        assert(seq![vs.last()].drop_last() =~= Seq::<JsonView>::empty());
        assert(calls_in(Seq::<JsonView>::empty()) =~= Seq::<(Seq<char>, Seq<char>)>::empty());
        assert(started(reducer::handled_all(t, vs).out) =~= calls_in(vs));
    } else {
        assert(started(reducer::handled_all(t, vs).out) =~= calls_in(vs));
    }
}

// ---------------------------------------------------------------------------------------------
// The end
// ---------------------------------------------------------------------------------------------

/// The value ends the turn as it was meant to end.
pub open spec fn completes(v: JsonView) -> bool {
    is_kind(v, "response.completed"@) || is_kind(v, "response.done"@)
}

/// The value says that the turn failed.
pub open spec fn fails(v: JsonView) -> bool {
    is_kind(v, "response.failed"@) || is_kind(v, "response.error"@) || is_kind(v, "error"@)
}

/// A value that ends a turn closes it with a `Finish`: one that completes it says whether a tool is to
/// be used and lets the turn be continued, one that says it is incomplete says that the tokens ran
/// out. The id is that of the value's response, else its own. A turn that has ended stays as it is.
pub proof fn law_ends_are_told(t: Turn, v: JsonView)
    requires
        completes(v) || is_kind(v, "response.incomplete"@),
    ensures
        ({
            let s = reducer::handled(t, v);
            let inner = match v.get("response"@) {
                Some(r) => r.get_str("id"@),
                None => None,
            };
            if t.terminal_seen {
                s == reducer::stay(t)
            } else {
                &&& s.turn.terminal_seen
                &&& s.turn.open == Open::Nothing
                &&& s.out.len() > 0
                &&& s.out.last() == (EventView::Finish {
                    stop_reason: if !completes(v) {
                        StopReason::MaxTokens
                    } else if t.saw_tool_use {
                        StopReason::ToolUse
                    } else {
                        StopReason::EndTurn
                    },
                    usage: reducer::usage_of(v),
                    response_id: if inner is Some {
                        inner
                    } else {
                        v.get_str("id"@)
                    },
                    continuation_eligible: completes(v),
                })
            }
        }),
{
    lemma_kind_names();
}

/// The usage of a turn is that of the value's response, else the value's own.
pub proof fn law_usage_is_the_nearest(v: JsonView, u: JsonView)
    requires
        (v.get("response"@) matches Some(r) && r.get("usage"@) == Some(u)) || ((v.get(
            "response"@,
        ) matches Some(r) ==> r.get("usage"@) is None) && v.get("usage"@) == Some(u)),
    ensures
        reducer::usage_of(v) == reducer::usage_view(u),
{
}

/// A turn that ends without a word on its usage used nothing that is known.
pub proof fn law_no_usage_is_none(v: JsonView)
    requires
        v.get("usage"@) is None,
        v.get("response"@) matches Some(r) ==> r.get("usage"@) is None,
    ensures
        reducer::usage_of(v) == (Usage { input: 0, output: 0, cache_read: 0, cache_write: 0 }),
{
}

/// The split of a usage adds up: what was read from a cache and what was not are together what went
/// in; what came out is as it is said; nothing counts below zero, and nothing is written to a cache.
pub proof fn law_usage_adds_up(u: JsonView, input: i64, cached: i64, output: i64)
    requires
        u.get("input_tokens"@) == Some(JsonView::Int(input)) || (u.get("input_tokens"@) is None
            && input == 0),
        (u.get("input_tokens_details"@) matches Some(d) && d.get("cached_tokens"@) == Some(
            JsonView::Int(cached),
        )) || (u.get("input_tokens_details"@) is None && cached == 0),
        u.get("output_tokens"@) == Some(JsonView::Int(output)) || (u.get("output_tokens"@) is None
            && output == 0),
    ensures
        ({
            let split = reducer::usage_view(u);
            &&& 0 <= cached <= input ==> split.input + split.cache_read == input
            &&& split.cache_read == cached
            &&& split.output == output
            &&& split.cache_write == 0
            &&& split.input >= 0
            &&& cached > input ==> split.input == 0
        }),
{
}

/// A failure is told with its message, the one closest to it: of its own error, else of its
/// response's, else its own, else a word in its place. The turn has ended then.
pub proof fn law_failures_are_told(t: Turn, v: JsonView, message: Seq<char>)
    requires
        fails(v),
        ({
            let own = match v.get("error"@) {
                Some(e) => e.get_str("message"@),
                None => None,
            };
            let nested = match v.get("response"@) {
                Some(r) => match r.get("error"@) {
                    Some(e) => e.get_str("message"@),
                    None => None,
                },
                None => None,
            };
            ||| own == Some(message)
            ||| own is None && nested == Some(message)
            ||| own is None && nested is None && v.get_str("message"@) == Some(message)
            ||| own is None && nested is None && v.get_str("message"@) is None && message
                == "upstream error"@
        }),
    ensures
        reducer::handled(t, v).out == seq![EventView::Error { message }],
        reducer::handled(t, v).turn == (Turn { terminal_seen: true, ..t }),
{
    lemma_kind_names();
}

/// Word of the limits ends the turn where a limit is reached, at either place where that can stand,
/// and means nothing otherwise.
pub proof fn law_limits_are_told(t: Turn, v: JsonView)
    requires
        is_kind(v, "codex.rate_limits"@),
    ensures
        ({
            let inner = match v.get("rate_limits"@) {
                Some(r) => r.get("limit_reached"@),
                None => None,
            };
            if v.get("limit_reached"@) == Some(JsonView::Bool(true)) || inner == Some(
                JsonView::Bool(true),
            ) {
                reducer::handled(t, v) == (Step {
                    turn: Turn { terminal_seen: true, ..t },
                    out: seq![EventView::Error { message: "rate limit reached"@ }],
                })
            } else {
                reducer::handled(t, v) == reducer::stay(t)
            }
        }),
{
    lemma_kind_names();
}

/// A value of any other kind changes nothing, and so does one without a kind.
pub proof fn law_other_values_change_nothing(t: Turn, v: JsonView)
    requires
        !completes(v),
        !fails(v),
        !is_kind(v, "response.incomplete"@),
        !is_kind(v, "codex.rate_limits"@),
        !is_kind(v, "response.output_item.added"@),
        !is_kind(v, "response.output_item.done"@),
        !is_kind(v, "response.reasoning_summary_part.added"@),
        !is_kind(v, "response.reasoning_summary_text.delta"@),
        !is_kind(v, "response.output_text.delta"@),
        !is_kind(v, "response.function_call_arguments.delta"@),
        !is_kind(v, "response.function_call_arguments.done"@),
    ensures
        reducer::handled(t, v) == reducer::stay(t),
{
    lemma_kind_names();
}

/// Only a value that ends the turn, or says that it failed or that a limit is reached, ends it.
pub proof fn law_nothing_else_ends_a_turn(t: Turn, v: JsonView)
    requires
        !t.terminal_seen,
        reducer::handled(t, v).turn.terminal_seen,
    ensures
        completes(v) || fails(v) || is_kind(v, "response.incomplete"@) || is_kind(
            v,
            "codex.rate_limits"@,
        ),
{
    lemma_kind_names();
}

// ---------------------------------------------------------------------------------------------
// Blocks
// ---------------------------------------------------------------------------------------------

/// The event that closes a block.
pub open spec fn stop_of(open: Open) -> EventView {
    match open {
        Open::Thinking => EventView::ThinkingStop,
        Open::Text => EventView::TextStop,
        _ => EventView::ToolStop,
    }
}

/// The end of an item closes the block that is open, with the stop of its kind. Only the end of
/// another item than the open tool call leaves the call open.
pub proof fn law_items_close_their_block(t: Turn, v: JsonView)
    requires
        is_kind(v, "response.output_item.done"@),
    ensures
        ({
            let s = reducer::handled(t, v);
            let other = t.open == Open::Tool && v.get_i64("output_index"@) is Some
                && t.tool_output_index is Some && v.get_i64("output_index"@) != t.tool_output_index;
            if other {
                s == reducer::stay(t)
            } else {
                &&& s.turn.open == Open::Nothing
                &&& t.open == Open::Nothing ==> s == reducer::stay(t)
                &&& t.open != Open::Nothing ==> s.out.len() > 0 && s.out.last() == stop_of(t.open)
            }
        }),
{
    lemma_kind_names();
}

/// A message that begins opens a text block, a tool call that begins opens a tool block that knows its
/// place and has no arguments yet, and any other item opens nothing.
pub proof fn law_items_open_their_block(t: Turn, v: JsonView, item: JsonView)
    requires
        is_kind(v, "response.output_item.added"@),
        v.get("item"@) == Some(item),
    ensures
        ({
            let s = reducer::handled(t, v);
            if is_kind(item, "message"@) {
                &&& s.turn.open == Open::Text
                &&& s.out.len() > 0
                &&& s.out.last() == EventView::TextStart
                &&& s.turn.saw_tool_use == t.saw_tool_use
            } else if is_kind(item, "function_call"@) {
                &&& s.turn.open == Open::Tool
                &&& s.out.len() > 0
                &&& s.out.last() is ToolStart
                &&& s.turn.saw_tool_use
                &&& s.turn.tool_buf.len() == 0
                &&& !s.turn.tool_flushed
                &&& s.turn.tool_output_index == v.get_i64("output_index"@)
                &&& s.turn.tool_id == s.out.last()->ToolStart_id
                &&& s.turn.tool_name == s.out.last()->ToolStart_name
            } else {
                s == reducer::stay(t)
            }
        }),
{
    lemma_kind_names();
    reveal_strlit("message");
    reveal_strlit("function_call");
    assert("message"@.len() != "function_call"@.len());
}

// ---------------------------------------------------------------------------------------------
// Tool calls
// ---------------------------------------------------------------------------------------------

/// The text of a piece.
pub open spec fn piece_of(v: JsonView) -> Seq<char> {
    match v.get_str("delta"@) {
        Some(d) => d,
        None => Seq::empty(),
    }
}

/// A piece of the answer is one event, also where it is empty, and it stands in a block of text: the
/// one that is open, or one that opens with it.
pub proof fn law_each_piece_of_text_is_one_event(t: Turn, v: JsonView)
    requires
        is_kind(v, "response.output_text.delta"@),
    ensures
        ({
            let s = reducer::handled(t, v);
            let n = s.out.len() as int;
            &&& s.turn.open == Open::Text
            &&& n > 0
            &&& s.out[n - 1] == EventView::TextDelta(piece_of(v))
            &&& t.open == Open::Text ==> n == 1
            &&& t.open == Open::Nothing ==> n == 2
            &&& t.open != Open::Text ==> n >= 2 && s.out[n - 2] == EventView::TextStart
            &&& t.open != Open::Text && t.open != Open::Nothing ==> n >= 3 && s.out[n - 3]
                == stop_of(t.open)
        }),
{
    lemma_kind_names();
}

/// A piece of a thought is one event, unless it is empty, and it stands in a block of thinking: the one
/// that is open, or one that opens with it. A part that begins inside such a block is parted by an
/// empty line, and does nothing elsewhere.
pub proof fn law_each_piece_of_thought_is_one_event(t: Turn, v: JsonView)
    ensures
        is_kind(v, "response.reasoning_summary_text.delta"@) && piece_of(v).len() == 0
            ==> reducer::handled(t, v) == reducer::stay(t),
        is_kind(v, "response.reasoning_summary_text.delta"@) && piece_of(v).len() > 0 ==> ({
            let s = reducer::handled(t, v);
            let n = s.out.len() as int;
            &&& s.turn.open == Open::Thinking
            &&& n > 0
            &&& s.out[n - 1] == EventView::ThinkingDelta(piece_of(v))
            &&& t.open == Open::Thinking ==> n == 1 && s.turn == t
            &&& t.open == Open::Nothing ==> n == 2
            &&& t.open != Open::Thinking ==> n >= 2 && s.out[n - 2] == EventView::ThinkingStart
            &&& t.open != Open::Thinking && t.open != Open::Nothing ==> n >= 3 && s.out[n - 3]
                == stop_of(t.open)
        }),
        is_kind(v, "response.reasoning_summary_part.added"@) && t.open == Open::Thinking
            ==> reducer::handled(t, v).out == seq![EventView::ThinkingDelta("\n\n"@)]
            && reducer::handled(t, v).turn == t,
        is_kind(v, "response.reasoning_summary_part.added"@) && t.open != Open::Thinking
            ==> reducer::handled(t, v) == reducer::stay(t),
{
    lemma_kind_names();
}

/// The value opens another block, or ends the turn.
pub open spec fn moves_on(t: Turn, v: JsonView) -> bool {
    ||| is_kind(v, "response.output_text.delta"@)
    ||| is_kind(v, "response.reasoning_summary_text.delta"@) && piece_of(v).len() > 0
    ||| is_kind(v, "response.output_item.added"@) && (v.get("item"@) matches Some(item) && (is_kind(
        item,
        "message"@,
    ) || is_kind(item, "function_call"@)))
    ||| (completes(v) || is_kind(v, "response.incomplete"@)) && !t.terminal_seen
}

/// No call is lost: where something else begins, or the turn ends, before the arguments of the open
/// call were said to be complete, they go out first, the call closes, and it is kept. So it is where
/// the stream breaks off.
pub proof fn law_no_call_is_lost(t: Turn, v: JsonView)
    requires
        t.open == Open::Tool,
        !t.tool_flushed,
        t.tool_name.len() > 0,
        read_rewrite::sanitized(t.tool_name, t.tool_buf).len() > 0,
    ensures
        ({
            let args = read_rewrite::sanitized(t.tool_name, t.tool_buf);
            let s = reducer::handled(t, v);
            let end = reducer::finished(t);
            &&& moves_on(t, v) ==> is_sent_and_kept(t, args, s)
            &&& is_sent_and_kept(t, args, end)
        }),
{
    lemma_kind_names();
    reveal_strlit("message");
    reveal_strlit("function_call");
    assert("message"@.len() == 7 && "function_call"@.len() == 13);
    let args = read_rewrite::sanitized(t.tool_name, t.tool_buf);
    let call = items::function_call_view(t.tool_id, t.tool_name, args);
    let m = call->Object_0;
    items::lemma_member_names();
    reveal_with_fuel(json::lookup, 5);
    assert(m.last().0 == "arguments"@);
    assert(m.drop_last().last().0 == "name"@);
    assert(m.drop_last().drop_last().last().0 == "call_id"@);
    assert(m.drop_last().drop_last().drop_last().last().0 == "type"@);
    assert(t.items.push(call).drop_last() =~= t.items);
}

/// The call went out, closed, and is the last of the items.
pub open spec fn is_sent_and_kept(t: Turn, args: Seq<char>, s: Step) -> bool {
    let kept = s.turn.items.last();
    &&& s.out.len() >= 2
    &&& s.out[0] == EventView::ToolDelta(args)
    &&& s.out[1] == EventView::ToolStop
    &&& s.turn.items.len() == t.items.len() + 1
    &&& s.turn.items.drop_last() == t.items
    &&& kept.get_str("call_id"@) == Some(t.tool_id)
    &&& kept.get_str("name"@) == Some(t.tool_name)
    &&& kept.get_str("arguments"@) == Some(args)
}

/// An item that is not told opens nothing.
pub proof fn law_no_item_no_block(t: Turn, v: JsonView)
    requires
        is_kind(v, "response.output_item.added"@),
        v.get("item"@) is None,
    ensures
        reducer::handled(t, v) == reducer::stay(t),
{
    lemma_kind_names();
}

/// Numbers that are missing, or are no numbers, count as zero.
pub proof fn law_missing_numbers_are_zero(u: JsonView)
    ensures
        u.get_i64("output_tokens"@) is None ==> reducer::usage_view(u).output == 0,
        u.get_i64("input_tokens"@) is None ==> reducer::usage_view(u).input == 0
            || reducer::usage_view(u).cache_read < 0,
        u.get2("input_tokens_details"@, "cached_tokens"@) is None ==> reducer::usage_view(
            u,
        ).cache_read == 0,
        u.get2("input_tokens_details"@, "cached_tokens"@) is None && u.get_i64("input_tokens"@)
            is Some && u.get_i64("input_tokens"@)->0 >= 0 ==> reducer::usage_view(u).input
            == u.get_i64("input_tokens"@)->0,
{
}


/// What the arguments of a call are once they are complete: the pieces that came, else the text that
/// completes them.
pub open spec fn complete_arguments(gathered: Seq<char>, done: JsonView) -> Seq<char> {
    if gathered.len() == 0 && done.get_str("arguments"@) is Some {
        done.get_str("arguments"@)->0
    } else {
        gathered
    }
}

/// When the arguments of a call are complete they go out in one piece, and never again; the call is
/// kept for the next turn with its id, its name and what went out.
pub proof fn law_complete_arguments_go_out_once(t: Turn, vs: Seq<JsonView>, done: JsonView)
    requires
        t.open == Open::Tool,
        !t.tool_flushed,
        forall|i: int| 0 <= i < vs.len() ==> laws::quiet(t.tool_output_index, #[trigger] vs[i]),
        is_kind(done, "response.function_call_arguments.done"@),
        read_rewrite::sanitized(
            t.tool_name,
            complete_arguments(t.tool_buf + laws::pieces(vs), done),
        ).len() > 0,
        t.tool_name.len() > 0,
    ensures
        ({
            let args = read_rewrite::sanitized(
                t.tool_name,
                complete_arguments(t.tool_buf + laws::pieces(vs), done),
            );
            let s = reducer::handled_all(t, vs.push(done));
            let kept = s.turn.items.last();
            &&& s.out == seq![EventView::ToolDelta(args)]
            &&& s.turn.open == Open::Tool
            &&& reducer::handled(s.turn, done).out.len() == 0
            &&& s.turn.items.len() == t.items.len() + 1
            &&& s.turn.items.drop_last() == t.items
            &&& is_kind(kept, "function_call"@)
            &&& kept.get_str("call_id"@) == Some(t.tool_id)
            &&& kept.get_str("name"@) == Some(t.tool_name)
            &&& kept.get_str("arguments"@) == Some(args)
        }),
{
    laws::law_arguments_gather_in_silence(t, vs);
    lemma_kind_names();
    assert(vs.push(done).drop_last() =~= vs);
    let before = reducer::handled_all(t, vs);
    let last = reducer::handled(before.turn, done);
    assert(before.out + last.out =~= last.out);
    let args = read_rewrite::sanitized(
        t.tool_name,
        complete_arguments(t.tool_buf + laws::pieces(vs), done),
    );
    lemma_call_item(t.tool_id, t.tool_name, args);
    let s = reducer::handled_all(t, vs.push(done));
    assert(s.turn.items.drop_last() =~= t.items);
}

proof fn lemma_call_item(id: Seq<char>, name: Seq<char>, args: Seq<char>)
    ensures
        ({
            let item = items::function_call_view(id, name, args);
            &&& is_kind(item, "function_call"@)
            &&& item.get_str("call_id"@) == Some(id)
            &&& item.get_str("name"@) == Some(name)
            &&& item.get_str("arguments"@) == Some(args)
        }),
{
    items::lemma_member_names();
    reveal_with_fuel(json::lookup, 6);
    let c = items::function_call_view(id, name, args)->Object_0;
    assert(c.last().0 == "arguments"@);
    assert(c.drop_last().last().0 == "name"@);
    assert(c.drop_last().drop_last().last().0 == "call_id"@);
    assert(c.drop_last().drop_last().drop_last().last().0 == "type"@);
}

/// A call that ends is kept for the next turn, whether or not a word came that its arguments are
/// complete, and a repair of it is noted with its id and the offset that went.
pub proof fn law_calls_are_kept(t: Turn, done: JsonView)
    requires
        t.open == Open::Tool,
        !t.tool_flushed,
        t.tool_name.len() > 0,
        is_kind(done, "response.output_item.done"@),
        done.get_i64("output_index"@) == t.tool_output_index,
        read_rewrite::sanitized(t.tool_name, t.tool_buf).len() > 0,
    ensures
        ({
            let s = reducer::handled(t, done);
            let kept = s.turn.items.last();
            let args = read_rewrite::sanitized(t.tool_name, t.tool_buf);
            &&& s.out == seq![EventView::ToolDelta(args), EventView::ToolStop]
            &&& s.turn.items.len() == t.items.len() + 1
            &&& s.turn.items.drop_last() == t.items
            &&& is_kind(kept, "function_call"@)
            &&& kept.get_str("call_id"@) == Some(t.tool_id)
            &&& kept.get_str("name"@) == Some(t.tool_name)
            &&& kept.get_str("arguments"@) == Some(args)
            &&& match read_rewrite::offset_in(t.tool_name, t.tool_buf) {
                Some(offset) => s.turn.rewrites.len() == t.rewrites.len() + 1
                    && s.turn.rewrites.drop_last() == t.rewrites && s.turn.rewrites.last().call_id
                    == t.tool_id && s.turn.rewrites.last().offset == offset,
                None => s.turn.rewrites == t.rewrites,
            }
        }),
{
    lemma_kind_names();
    let args = read_rewrite::sanitized(t.tool_name, t.tool_buf);
    lemma_call_item(t.tool_id, t.tool_name, args);
    let s = reducer::handled(t, done);
    assert(s.turn.items.drop_last() =~= t.items);
    assert(s.out =~= seq![EventView::ToolDelta(args), EventView::ToolStop]);
    if read_rewrite::offset_in(t.tool_name, t.tool_buf) is Some {
        assert(s.turn.rewrites.drop_last() =~= t.rewrites);
    }
}

/// The arguments of a call reach the client as the model wrote them, unless the call is a `Read` with
/// an impossible offset: then all but the offset does.
pub proof fn law_arguments_stay_as_written(name: Seq<char>, args: Seq<char>, v: JsonView)
    requires
        json::parsed_json(vstd::utf8::encode_utf8(args)) == Some(v),
    ensures
        name != "Read"@ ==> read_rewrite::sanitized(name, args) == args && read_rewrite::offset_in(
            name,
            args,
        ) is None,
        v.get_i64("offset"@) is None ==> read_rewrite::sanitized(name, args) == args
            && read_rewrite::offset_in(name, args) is None,
        v.get_i64("offset"@) matches Some(o) ==> (o <= read_rewrite::MAX_READ_OFFSET
            ==> read_rewrite::sanitized(name, args) == args && read_rewrite::offset_in(name, args)
            is None),
        v.get_i64("offset"@) matches Some(o) ==> (name == "Read"@ && o
            > read_rewrite::MAX_READ_OFFSET ==> read_rewrite::offset_in(name, args) is Some
            && read_rewrite::offset_in(name, args)->0 == o),
{
}

/// What cannot be read as JSON stays as it is.
pub proof fn law_unreadable_arguments_stay(name: Seq<char>, args: Seq<char>)
    requires
        json::parsed_json(vstd::utf8::encode_utf8(args)) is None,
    ensures
        read_rewrite::sanitized(name, args) == args,
        read_rewrite::offset_in(name, args) is None,
{
}

/// Taking out the offset leaves every other member of the arguments, with its value.
pub proof fn law_repair_takes_only_the_offset(args: JsonView, key: Seq<char>)
    requires
        args is Object,
    ensures
        read_rewrite::without_offset(args) is Object,
        read_rewrite::without_offset(args).get("offset"@) is None,
        key != "offset"@ ==> read_rewrite::without_offset(args).get(key) == args.get(key),
{
    json::law_only_the_omitted_member_goes(args->Object_0, "offset"@, key);
}

/// A repaired call goes out as the text of what is left of its arguments.
pub proof fn law_a_repaired_call_is_written_anew(name: Seq<char>, args: Seq<char>, v: JsonView)
    requires
        json::parsed_json(vstd::utf8::encode_utf8(args)) == Some(v),
        read_rewrite::offset_in(name, args) is Some,
        json::json_text(read_rewrite::without_offset(v)) is Some,
    ensures
        read_rewrite::sanitized(name, args) == json::json_text(read_rewrite::without_offset(v))->0,
{
}

// ---------------------------------------------------------------------------------------------
// Lines
// ---------------------------------------------------------------------------------------------

/// A line that begins with `data:` carries the JSON that follows, and any other line carries nothing.
pub proof fn law_data_lines_carry_json(line: Seq<u8>, body: Seq<u8>)
    ensures
        line == seq![100u8, 97u8, 116u8, 97u8, 58u8] + body ==> sse::line_value(line)
            == json::parsed_json(body),
        sse::line_value(line) is Some ==> line.len() >= 5 && line[0] == 100u8 && line[1] == 97u8
            && line[2] == 116u8 && line[3] == 97u8 && line[4] == 58u8,
{
    let mark = seq![100u8, 97u8, 116u8, 97u8, 58u8];
    if line == mark + body {
        assert(line.take(5) =~= mark);
        assert(line.skip(5) =~= body);
    }
    if sse::line_value(line) is Some {
        assert(line.take(5)[0] == 100u8 && line.take(5)[1] == 97u8 && line.take(5)[2] == 116u8
            && line.take(5)[3] == 97u8 && line.take(5)[4] == 58u8);
    }
}

/// A line is read when it ends, and not before: bytes without a line feed only wait, and a line feed
/// gives what the line carries and leaves nothing waiting.
pub proof fn law_lines_are_read_when_they_end(rest: Seq<u8>, more: Seq<u8>)
    requires
        !more.contains(10u8),
    ensures
        sse::feed(rest, more).values.len() == 0,
        sse::feed(rest, more).rest == rest + more,
        sse::feed(rest, more.push(10u8)).rest.len() == 0,
        sse::feed(rest, more.push(10u8)).values == match sse::line_value(rest + more) {
            Some(v) => seq![v],
            None => Seq::<JsonView>::empty(),
        },
    decreases more.len(),
{
    let whole = more.push(10u8);
    assert(whole.drop_last() =~= more);
    if more.len() == 0 {
        assert(rest + more =~= rest);
    } else {
        let most = more.drop_last();
        if most.contains(10u8) {
            let i = choose|i: int| 0 <= i < most.len() && most[i] == 10u8;
            assert(more[i] == 10u8);
        }
        assert(more[more.len() - 1] != 10u8);
        law_lines_are_read_when_they_end(rest, most);
        assert((rest + most).push(more.last()) =~= rest + more);
    }
    assert(sse::feed(rest, more).values =~= Seq::<JsonView>::empty());
    assert(sse::feed(rest, whole).values =~= match sse::line_value(rest + more) {
        Some(v) => seq![v],
        None => Seq::<JsonView>::empty(),
    });
}

} // verus!
