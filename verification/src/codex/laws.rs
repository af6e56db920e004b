//! What holds of every turn that a reducer reads.
use crate::codex::items;
use crate::codex::read_rewrite;
use crate::codex::reducer;
use crate::codex::reducer::{Open, Step, Turn};
use crate::codex::sse;
use crate::codex::sse::EventView;
use crate::json::JsonView;
use vstd::prelude::*;

verus! {

// ---------------------------------------------------------------------------------------------
// Chunks
// ---------------------------------------------------------------------------------------------

/// Handling one list of values and then another is handling both as one list.
pub proof fn law_handling_composes(t: Turn, a: Seq<JsonView>, b: Seq<JsonView>)
    ensures
        reducer::handled_all(t, a + b).turn == reducer::handled_all(
            reducer::handled_all(t, a).turn,
            b,
        ).turn,
        reducer::handled_all(t, a + b).out == reducer::handled_all(t, a).out
            + reducer::handled_all(reducer::handled_all(t, a).turn, b).out,
    decreases b.len(),
{
    let mid = reducer::handled_all(t, a);
    if b.len() == 0 {
        assert(a + b =~= a);
        assert(mid.out + Seq::<EventView>::empty() =~= mid.out);
    } else {
        law_handling_composes(t, a, b.drop_last());
        assert((a + b).drop_last() =~= a + b.drop_last());
        let tail = reducer::handled_all(mid.turn, b.drop_last());
        let last = reducer::handled(tail.turn, b.last());
        assert((mid.out + tail.out) + last.out =~= mid.out + (tail.out + last.out));
    }
}

/// How the stream is cut into chunks makes no difference: two pushes bring the events, and leave the
/// turn, of one push of all the bytes.
pub proof fn law_push_is_chunk_independent(rest: Seq<u8>, t: Turn, a: Seq<u8>, b: Seq<u8>)
    ensures
        ({
            let first = sse::feed(rest, a);
            let one = reducer::handled_all(t, first.values);
            let second = sse::feed(first.rest, b);
            let two = reducer::handled_all(one.turn, second.values);
            let whole = sse::feed(rest, a + b);
            let all = reducer::handled_all(t, whole.values);
            all.out == one.out + two.out && all.turn == two.turn && whole.rest == second.rest
        }),
{
    sse::law_feed_is_chunk_independent(rest, a, b);
    let first = sse::feed(rest, a);
    law_handling_composes(t, first.values, sse::feed(first.rest, b).values);
}

// ---------------------------------------------------------------------------------------------
// Blocks
// ---------------------------------------------------------------------------------------------

/// Where an event stream stands: between blocks or inside one. A tool call takes its arguments once.
pub enum Phase {
    Idle,
    Thinking,
    Text,
    Tool { fed: bool },
}

/// Where a stream stands after one more event; `None` where the event has no place there.
pub open spec fn next_phase(p: Phase, e: EventView) -> Option<Phase> {
    match (p, e) {
        (_, EventView::Error { .. }) => Some(p),
        (Phase::Idle, EventView::TextStart) => Some(Phase::Text),
        (Phase::Text, EventView::TextDelta(_)) => Some(Phase::Text),
        (Phase::Text, EventView::TextStop) => Some(Phase::Idle),
        (Phase::Idle, EventView::ThinkingStart) => Some(Phase::Thinking),
        (Phase::Thinking, EventView::ThinkingDelta(_)) => Some(Phase::Thinking),
        (Phase::Thinking, EventView::ThinkingStop) => Some(Phase::Idle),
        (Phase::Idle, EventView::ToolStart { .. }) => Some(Phase::Tool { fed: false }),
        (Phase::Tool { fed: false }, EventView::ToolDelta(_)) => Some(Phase::Tool { fed: true }),
        (Phase::Tool { .. }, EventView::ToolStop) => Some(Phase::Idle),
        (Phase::Idle, EventView::Finish { .. }) => Some(Phase::Idle),
        _ => None,
    }
}

/// Where a stream stands after these events; `None` where one of them has no place.
pub open spec fn follow(p: Phase, es: Seq<EventView>) -> Option<Phase>
    decreases es.len(),
{
    if es.len() == 0 {
        Some(p)
    } else {
        match follow(p, es.drop_last()) {
            Some(q) => next_phase(q, es.last()),
            None => None,
        }
    }
}

/// The stream stands where the turn says.
pub open spec fn agrees(p: Phase, t: Turn) -> bool {
    match p {
        Phase::Idle => t.open == Open::Nothing,
        Phase::Thinking => t.open == Open::Thinking,
        Phase::Text => t.open == Open::Text,
        Phase::Tool { fed } => t.open == Open::Tool && (fed ==> t.tool_flushed),
    }
}

/// A value that completes arguments while no tool call is open, and has some to send.
pub open spec fn stray(t: Turn, v: JsonView) -> bool {
    &&& v.get_str("type"@) == Some("response.function_call_arguments.done"@)
    &&& t.open != Open::Tool
    &&& reducer::arguments_done(t, v).out.len() > 0
}

proof fn lemma_follow_push(p: Phase, es: Seq<EventView>, e: EventView)
    ensures
        follow(p, es.push(e)) == match follow(p, es) {
            Some(q) => next_phase(q, e),
            None => None,
        },
{
    assert(es.push(e).drop_last() =~= es);
}

proof fn lemma_follow_one(p: Phase, e: EventView)
    ensures
        follow(p, seq![e]) == next_phase(p, e),
{
    assert(seq![e].drop_last() =~= Seq::<EventView>::empty());
    assert(follow(p, Seq::<EventView>::empty()) == Some(p));
}

proof fn lemma_follow_add(p: Phase, a: Seq<EventView>, b: Seq<EventView>)
    ensures
        follow(p, a + b) == match follow(p, a) {
            Some(q) => follow(q, b),
            None => None,
        },
    decreases b.len(),
{
    if b.len() == 0 {
        assert(a + b =~= a);
    } else {
        lemma_follow_add(p, a, b.drop_last());
        assert((a + b).drop_last() =~= a + b.drop_last());
    }
}

/// Closing the open block leaves the stream between blocks.
proof fn lemma_closing_follows(p: Phase, t: Turn)
    requires
        agrees(p, t),
    ensures
        follow(p, reducer::closed_block(t).out) == Some(Phase::Idle),
        agrees(Phase::Idle, reducer::closed_block(t).turn),
{
    let s = reducer::closed_block(t);
    match t.open {
        Open::Nothing => {},
        Open::Thinking => {
            lemma_follow_one(p, EventView::ThinkingStop);
        },
        Open::Text => {
            lemma_follow_one(p, EventView::TextStop);
        },
        Open::Tool => {
            let f = reducer::tool_flushed(t);
            lemma_follow_push(p, f.out, EventView::ToolStop);
            if f.out.len() > 0 {
                lemma_follow_one(p, f.out[0]);
                assert(f.out =~= seq![f.out[0]]);
            }
        },
    }
}

/// Every event of a turn stands in its place: deltas and stops inside a block of their kind, starts
/// and the finish between blocks, and a tool call takes its arguments at most once. The one exception
/// is a value that completes arguments before any tool call.
pub proof fn law_events_are_bracketed(p: Phase, t: Turn, v: JsonView)
    requires
        agrees(p, t),
        !stray(t, v),
    ensures
        follow(p, reducer::handled(t, v).out) is Some,
        agrees(follow(p, reducer::handled(t, v).out)->0, reducer::handled(t, v).turn),
{
    let s = reducer::handled(t, v);
    let c = reducer::closed_block(t);
    lemma_closing_follows(p, t);
    assert(follow(p, Seq::<EventView>::empty()) == Some(p));
    if s.out.len() == 1 {
        lemma_follow_one(p, s.out[0]);
        assert(s.out =~= seq![s.out[0]]);
    }
    if s.out.len() > 0 {
        let most = s.out.drop_last();
        lemma_follow_push(p, most, s.out.last());
        assert(most.push(s.out.last()) =~= s.out);
        if most =~= c.out {
        } else if most.len() > 0 {
            lemma_follow_push(p, most.drop_last(), most.last());
            assert(most.drop_last().push(most.last()) =~= most);
            if most.drop_last() =~= c.out {
            }
        }
    }
    let ty = reducer::or_empty(v.get_str("type"@));
    if ty == "response.function_call_arguments.done"@ {
        lemma_type_names();
        let filled = if t.tool_buf.len() == 0 && v.get_str("arguments"@) is Some {
            Turn { tool_buf: v.get_str("arguments"@)->0, ..t }
        } else {
            t
        };
        assert(v.get_str("type"@) == Some("response.function_call_arguments.done"@));
        assert(s == reducer::tool_flushed(filled)) by {
            lemma_handles_arguments(t, v);
        }
        if s.out.len() == 0 {
            assert(s.out =~= Seq::<EventView>::empty());
        }
    }
}

/// The names of the events that concern tool arguments differ from those handled before them.
proof fn lemma_type_names()
    ensures
        "response.function_call_arguments.done"@.len() > 0,
        "response.function_call_arguments.done"@ != "response.output_item.added"@,
        "response.function_call_arguments.done"@ != "response.reasoning_summary_part.added"@,
        "response.function_call_arguments.done"@ != "response.reasoning_summary_text.delta"@,
        "response.function_call_arguments.done"@ != "response.output_text.delta"@,
        "response.function_call_arguments.done"@ != "response.function_call_arguments.delta"@,
        "response.function_call_arguments.delta"@.len() > 0,
        "response.function_call_arguments.delta"@ != "response.output_item.added"@,
        "response.function_call_arguments.delta"@ != "response.reasoning_summary_part.added"@,
        "response.function_call_arguments.delta"@ != "response.reasoning_summary_text.delta"@,
        "response.function_call_arguments.delta"@ != "response.output_text.delta"@,
        "response.output_item.done"@ != "response.output_item.added"@,
        "response.output_item.done"@ != "response.reasoning_summary_part.added"@,
        "response.output_item.done"@ != "response.reasoning_summary_text.delta"@,
        "response.output_item.done"@ != "response.output_text.delta"@,
        "response.output_item.done"@ != "response.function_call_arguments.delta"@,
        "response.output_item.done"@ != "response.function_call_arguments.done"@,
{
    reveal_strlit("response.function_call_arguments.done");
    reveal_strlit("response.function_call_arguments.delta");
    reveal_strlit("response.output_item.added");
    reveal_strlit("response.output_item.done");
    reveal_strlit("response.reasoning_summary_part.added");
    reveal_strlit("response.reasoning_summary_text.delta");
    reveal_strlit("response.output_text.delta");
    assert("response.function_call_arguments.done"@.len() == 37);
    assert("response.function_call_arguments.delta"@.len() == 38);
    assert("response.output_item.added"@.len() == 26);
    assert("response.output_item.done"@.len() == 25);
    assert("response.reasoning_summary_part.added"@.len() == 37);
    assert("response.reasoning_summary_text.delta"@.len() == 37);
    assert("response.output_text.delta"@.len() == 26);
    assert("response.function_call_arguments.delta"@[9] == 'f');
    assert("response.reasoning_summary_part.added"@[9] == 'r');
    assert("response.reasoning_summary_text.delta"@[9] == 'r');
}

proof fn lemma_handles_arguments(t: Turn, v: JsonView)
    requires
        v.get_str("type"@) == Some("response.function_call_arguments.done"@),
    ensures
        reducer::handled(t, v) == reducer::arguments_done(t, v),
{
    lemma_type_names();
}

/// No value of the list is stray when its turn comes.
pub open spec fn no_stray(t: Turn, vs: Seq<JsonView>) -> bool {
    forall|i: int|
        0 <= i < vs.len() ==> !stray(reducer::handled_all(t, #[trigger] vs.take(i)).turn, vs[i])
}

/// The events of a whole stream stand in their places.
pub proof fn law_streams_are_bracketed(p: Phase, t: Turn, vs: Seq<JsonView>)
    requires
        agrees(p, t),
        no_stray(t, vs),
    ensures
        follow(p, reducer::handled_all(t, vs).out) is Some,
        agrees(follow(p, reducer::handled_all(t, vs).out)->0, reducer::handled_all(t, vs).turn),
    decreases vs.len(),
{
    if vs.len() > 0 {
        let most = vs.drop_last();
        assert forall|i: int| 0 <= i < most.len() implies !stray(
            reducer::handled_all(t, #[trigger] most.take(i)).turn,
            most[i],
        ) by {
            assert(vs.take(i) =~= most.take(i));
        }
        law_streams_are_bracketed(p, t, most);
        let before = reducer::handled_all(t, most);
        let q = follow(p, before.out)->0;
        assert(vs.take(vs.len() - 1) =~= most);
        law_events_are_bracketed(q, before.turn, vs.last());
        lemma_follow_add(p, before.out, reducer::handled(before.turn, vs.last()).out);
    }
}

/// A turn that is read to the end of its stream leaves no block open, however the stream broke off.
pub proof fn law_finish_closes_every_block(vs: Seq<JsonView>)
    requires
        no_stray(reducer::fresh_turn(), vs),
    ensures
        ({
            let read = reducer::handled_all(reducer::fresh_turn(), vs);
            let end = reducer::finished(read.turn);
            &&& follow(Phase::Idle, read.out + end.out) == Some(Phase::Idle)
            &&& end.turn.open == Open::Nothing
            &&& end.turn.terminal_seen
        }),
{
    let t = reducer::fresh_turn();
    let read = reducer::handled_all(t, vs);
    let end = reducer::finished(read.turn);
    law_streams_are_bracketed(Phase::Idle, t, vs);
    let q = follow(Phase::Idle, read.out)->0;
    lemma_follow_add(Phase::Idle, read.out, end.out);
    lemma_closing_follows(q, read.turn);
    let c = reducer::closed_block(read.turn);
    if !c.turn.terminal_seen {
        lemma_follow_push(q, c.out, end.out.last());
    }
}

/// Where a tool call has begun and none is open, its arguments have gone out.
pub open spec fn sound(t: Turn) -> bool {
    t.saw_tool_use && t.open != Open::Tool ==> t.tool_flushed
}

/// Once a tool call has begun, no value is stray.
pub proof fn law_no_stray_after_a_tool_call(t: Turn, v: JsonView)
    requires
        sound(t),
    ensures
        t.saw_tool_use ==> !stray(t, v),
        sound(reducer::handled(t, v).turn),
        t.saw_tool_use ==> reducer::handled(t, v).turn.saw_tool_use,
{
}

// ---------------------------------------------------------------------------------------------
// The end of a turn
// ---------------------------------------------------------------------------------------------

/// How many of the events end the turn with a `Finish`.
pub open spec fn finishes(es: Seq<EventView>) -> nat
    decreases es.len(),
{
    if es.len() == 0 {
        0
    } else if es.last() is Finish {
        finishes(es.drop_last()) + 1
    } else {
        finishes(es.drop_last())
    }
}

proof fn lemma_finishes_add(a: Seq<EventView>, b: Seq<EventView>)
    ensures
        finishes(a + b) == finishes(a) + finishes(b),
    decreases b.len(),
{
    if b.len() == 0 {
        assert(a + b =~= a);
    } else {
        lemma_finishes_add(a, b.drop_last());
        assert((a + b).drop_last() =~= a + b.drop_last());
    }
}

proof fn lemma_closing_finishes_nothing(t: Turn)
    ensures
        finishes(reducer::closed_block(t).out) == 0,
        reducer::closed_block(t).turn.terminal_seen == t.terminal_seen,
{
    reveal_with_fuel(finishes, 3);
}

/// One value ends a turn at most once, and never a turn that has ended.
pub proof fn law_one_value_finishes_at_most_once(t: Turn, v: JsonView)
    ensures
        finishes(reducer::handled(t, v).out) <= 1,
        t.terminal_seen ==> finishes(reducer::handled(t, v).out) == 0,
        t.terminal_seen ==> reducer::handled(t, v).turn.terminal_seen,
        finishes(reducer::handled(t, v).out) > 0 ==> reducer::handled(t, v).turn.terminal_seen,
{
    let s = reducer::handled(t, v);
    let c = reducer::closed_block(t);
    lemma_closing_finishes_nothing(t);
    reveal_with_fuel(finishes, 4);
    if s.out.len() > 0 {
        let most = s.out.drop_last();
        if most =~= c.out {
        } else if most.len() > 0 && most.drop_last() =~= c.out {
        }
    }
}

/// However long the stream, a turn ends at most once: no `Finish` comes after a `Finish` or after an
/// error.
pub proof fn law_a_turn_finishes_at_most_once(t: Turn, vs: Seq<JsonView>)
    ensures
        finishes(reducer::handled_all(t, vs).out) <= 1,
        t.terminal_seen ==> finishes(reducer::handled_all(t, vs).out) == 0,
        t.terminal_seen ==> reducer::handled_all(t, vs).turn.terminal_seen,
        finishes(reducer::handled_all(t, vs).out) > 0 ==> reducer::handled_all(
            t,
            vs,
        ).turn.terminal_seen,
    decreases vs.len(),
{
    if vs.len() > 0 {
        let before = reducer::handled_all(t, vs.drop_last());
        law_a_turn_finishes_at_most_once(t, vs.drop_last());
        law_one_value_finishes_at_most_once(before.turn, vs.last());
        lemma_finishes_add(before.out, reducer::handled(before.turn, vs.last()).out);
    }
}

/// With the end of the stream a turn that nothing has ended gets its one `Finish`, which says that
/// there is nothing to continue from; a turn that has ended gets none. Ending the stream once more
/// does nothing.
pub proof fn law_finish_ends_the_turn_once(t: Turn)
    ensures
        finishes(reducer::finished(t).out) == if t.terminal_seen {
            0nat
        } else {
            1nat
        },
        !t.terminal_seen ==> reducer::finished(t).out.last() == (EventView::Finish {
            stop_reason: sse::StopReason::EndTurn,
            usage: sse::no_usage(),
            response_id: None,
            continuation_eligible: false,
        }),
        reducer::finished(t).turn.terminal_seen,
        reducer::finished(t).turn.open == Open::Nothing,
        reducer::finished(reducer::finished(t).turn) == reducer::stay(reducer::finished(t).turn),
{
    let c = reducer::closed_block(t);
    lemma_closing_finishes_nothing(t);
    let end = reducer::finished(t);
    if !c.turn.terminal_seen {
        assert(end.out.drop_last() =~= c.out);
    }
    assert(reducer::finished(end.turn) =~= reducer::stay(end.turn));
}

/// An event that ends the turn: a `Finish` or an error.
pub open spec fn ends(e: EventView) -> bool {
    e is Finish || e is Error
}

/// Some event ends the turn.
pub open spec fn ended(es: Seq<EventView>) -> bool {
    exists|i: int| 0 <= i < es.len() && ends(#[trigger] es[i])
}

/// A value with which a tool call begins.
pub open spec fn begins_tool_call(v: JsonView) -> bool {
    &&& v.get_str("type"@) == Some("response.output_item.added"@)
    &&& v.get("item"@) matches Some(item) && item.get_str("type"@) == Some("function_call"@)
}

/// Some value begins a tool call.
pub open spec fn calls_a_tool(vs: Seq<JsonView>) -> bool {
    exists|i: int| 0 <= i < vs.len() && begins_tool_call(#[trigger] vs[i])
}

proof fn lemma_ended_add(a: Seq<EventView>, b: Seq<EventView>)
    ensures
        ended(a + b) <==> ended(a) || ended(b),
{
    let c = a + b;
    if ended(c) {
        let i = choose|i: int| 0 <= i < c.len() && ends(#[trigger] c[i]);
        if i < a.len() {
            assert(ends(a[i]));
        } else {
            assert(ends(b[i - a.len()]));
        }
    }
    if ended(a) {
        let i = choose|i: int| 0 <= i < a.len() && ends(#[trigger] a[i]);
        assert(ends(c[i]));
    }
    if ended(b) {
        let i = choose|i: int| 0 <= i < b.len() && ends(#[trigger] b[i]);
        assert(ends(c[i + a.len()]));
    }
}

proof fn lemma_ended_push(a: Seq<EventView>, e: EventView)
    ensures
        ended(a.push(e)) <==> ended(a) || ends(e),
{
    lemma_ended_add(a, seq![e]);
    assert(a + seq![e] =~= a.push(e));
    if ends(e) {
        assert(ends(seq![e][0]));
    }
}

proof fn lemma_closing_ends_nothing(t: Turn)
    ensures
        !ended(reducer::closed_block(t).out),
        !ended(reducer::tool_flushed(t).out),
        reducer::closed_block(t).turn.saw_tool_use == t.saw_tool_use,
        reducer::closed_block(t).turn.terminal_seen == t.terminal_seen,
{
}

/// One value ends the turn where, and only where, it brings an event that does so, and begins a tool
/// call where it says so.
proof fn lemma_one_value_marks_the_turn(t: Turn, v: JsonView)
    ensures
        reducer::handled(t, v).turn.terminal_seen <==> t.terminal_seen || ended(
            reducer::handled(t, v).out,
        ),
        reducer::handled(t, v).turn.saw_tool_use <==> t.saw_tool_use || begins_tool_call(v),
{
    let s = reducer::handled(t, v);
    let c = reducer::closed_block(t);
    let args = v.get_str("arguments"@);
    reveal_strlit("response.output_item.added");
    reveal_strlit("message");
    reveal_strlit("function_call");
    assert("response.output_item.added"@.len() > 0);
    assert("message"@.len() != "function_call"@.len());
    lemma_closing_ends_nothing(t);
    lemma_closing_ends_nothing(
        if t.tool_buf.len() == 0 && args is Some {
            Turn { tool_buf: args->0, ..t }
        } else {
            t
        },
    );
    if s.out.len() > 0 {
        let most = s.out.drop_last();
        assert(s.out =~= most.push(s.out.last()));
        lemma_ended_push(most, s.out.last());
        if most.len() > 0 {
            assert(most =~= most.drop_last().push(most.last()));
            lemma_ended_push(most.drop_last(), most.last());
            if most =~= c.out {
            } else if most.drop_last() =~= c.out {
            }
        }
    }
}

/// A turn remembers how it came about: it has ended where a `Finish` or an error has gone out, and it
/// has seen a tool call where a value began one.
pub proof fn law_a_turn_remembers(vs: Seq<JsonView>)
    ensures
        reducer::handled_all(reducer::fresh_turn(), vs).turn.terminal_seen <==> ended(
            reducer::handled_all(reducer::fresh_turn(), vs).out,
        ),
        reducer::handled_all(reducer::fresh_turn(), vs).turn.saw_tool_use <==> calls_a_tool(vs),
    decreases vs.len(),
{
    if vs.len() > 0 {
        let most = vs.drop_last();
        let before = reducer::handled_all(reducer::fresh_turn(), most);
        law_a_turn_remembers(most);
        lemma_one_value_marks_the_turn(before.turn, vs.last());
        lemma_ended_add(before.out, reducer::handled(before.turn, vs.last()).out);
        if calls_a_tool(vs) {
            let i = choose|i: int| 0 <= i < vs.len() && begins_tool_call(#[trigger] vs[i]);
            if i < most.len() {
                assert(begins_tool_call(most[i]));
            }
        }
        if calls_a_tool(most) {
            let i = choose|i: int| 0 <= i < most.len() && begins_tool_call(#[trigger] most[i]);
            assert(begins_tool_call(vs[i]));
        }
    }
}

/// How a turn ends, after any stream: where a `Finish` or an error has gone out, nothing more does.
/// Else the last event is a `Finish`. It says that the tokens ran out where the turn is incomplete,
/// that a tool is to be used where a value began a tool call, and that the turn is over otherwise. It
/// can be continued unless it is incomplete, and its id is that of the response, else the value's own.
pub proof fn law_the_end_says_how_the_turn_went(vs: Seq<JsonView>, v: JsonView, incomplete: bool)
    ensures
        ({
            let so_far = reducer::handled_all(reducer::fresh_turn(), vs);
            let end = reducer::terminal(so_far.turn, v, incomplete);
            let id = match v.get("response"@) {
                Some(r) => r.get_str("id"@),
                None => None,
            };
            if ended(so_far.out) {
                end == reducer::stay(so_far.turn)
            } else {
                &&& end.out.len() > 0
                &&& end.turn.terminal_seen
                &&& end.out.last() == (EventView::Finish {
                    stop_reason: if incomplete {
                        sse::StopReason::MaxTokens
                    } else if calls_a_tool(vs) {
                        sse::StopReason::ToolUse
                    } else {
                        sse::StopReason::EndTurn
                    },
                    usage: reducer::usage_of(v),
                    response_id: if id is Some {
                        id
                    } else {
                        v.get_str("id"@)
                    },
                    continuation_eligible: !incomplete,
                })
            }
        }),
{
    law_a_turn_remembers(vs);
    lemma_closing_ends_nothing(reducer::handled_all(reducer::fresh_turn(), vs).turn);
}

// ---------------------------------------------------------------------------------------------
// Tool calls
// ---------------------------------------------------------------------------------------------

/// A value that brings a piece of arguments, or that ends another item than the tool call at `index`.
pub open spec fn quiet(index: Option<i64>, v: JsonView) -> bool {
    ||| v.get_str("type"@) == Some("response.function_call_arguments.delta"@)
    ||| {
        &&& v.get_str("type"@) == Some("response.output_item.done"@)
        &&& v.get_i64("output_index"@) is Some
        &&& index is Some
        &&& v.get_i64("output_index"@) != index
    }
}

/// The pieces of arguments that the values bring, one after another.
pub open spec fn pieces(vs: Seq<JsonView>) -> Seq<char>
    decreases vs.len(),
{
    if vs.len() == 0 {
        Seq::empty()
    } else if vs.last().get_str("type"@) == Some("response.function_call_arguments.delta"@) {
        pieces(vs.drop_last()) + reducer::or_empty(vs.last().get_str("delta"@))
    } else {
        pieces(vs.drop_last())
    }
}

/// While a tool call is open its arguments gather and nothing goes out: not with a piece, and not
/// with the end of another item.
pub proof fn law_arguments_gather_in_silence(t: Turn, vs: Seq<JsonView>)
    requires
        t.open == Open::Tool,
        forall|i: int| 0 <= i < vs.len() ==> quiet(t.tool_output_index, #[trigger] vs[i]),
    ensures
        reducer::handled_all(t, vs).out.len() == 0,
        reducer::handled_all(t, vs).turn == (Turn { tool_buf: t.tool_buf + pieces(vs), ..t }),
    decreases vs.len(),
{
    if vs.len() == 0 {
        assert(t.tool_buf + pieces(vs) =~= t.tool_buf);
        assert((Turn { tool_buf: t.tool_buf + pieces(vs), ..t }) =~= t);
    } else {
        let most = vs.drop_last();
        assert forall|i: int| 0 <= i < most.len() implies quiet(
            t.tool_output_index,
            #[trigger] most[i],
        ) by {
            assert(most[i] == vs[i]);
        }
        law_arguments_gather_in_silence(t, most);
        lemma_type_names();
        let before = reducer::handled_all(t, most);
        let v = vs.last();
        assert(quiet(t.tool_output_index, vs[vs.len() - 1]));
        let last = reducer::handled(before.turn, v);
        assert(before.out + last.out =~= last.out);
        if v.get_str("type"@) == Some("response.function_call_arguments.delta"@) {
            let delta = reducer::or_empty(v.get_str("delta"@));
            assert((t.tool_buf + pieces(most)) + delta =~= t.tool_buf + pieces(vs));
        }
    }
}

/// However its arguments were cut up, a tool call goes out as one event that holds all of them,
/// repaired as a whole, when the item ends; then the block closes.
pub proof fn law_arguments_go_out_whole(t: Turn, vs: Seq<JsonView>, done: JsonView)
    requires
        t.open == Open::Tool,
        !t.tool_flushed,
        forall|i: int| 0 <= i < vs.len() ==> quiet(t.tool_output_index, #[trigger] vs[i]),
        done.get_str("type"@) == Some("response.output_item.done"@),
        done.get_i64("output_index"@) == t.tool_output_index,
        read_rewrite::sanitized(t.tool_name, t.tool_buf + pieces(vs)).len() > 0,
    ensures
        reducer::handled_all(t, vs.push(done)).out == seq![
            EventView::ToolDelta(
                read_rewrite::sanitized(t.tool_name, t.tool_buf + pieces(vs)),
            ),
            EventView::ToolStop,
        ],
{
    law_arguments_gather_in_silence(t, vs);
    lemma_type_names();
    assert(vs.push(done).drop_last() =~= vs);
    let before = reducer::handled_all(t, vs);
    let last = reducer::handled(before.turn, done);
    assert(before.out + last.out =~= last.out);
}

// ---------------------------------------------------------------------------------------------
// The transcript
// ---------------------------------------------------------------------------------------------

/// The text of the answer in a list of events.
pub open spec fn said(es: Seq<EventView>) -> Seq<char>
    decreases es.len(),
{
    if es.len() == 0 {
        Seq::empty()
    } else {
        match es.last() {
            EventView::TextDelta(s) => said(es.drop_last()) + s,
            _ => said(es.drop_last()),
        }
    }
}

/// The text of one item: of the single part of a message's content.
pub open spec fn item_text(item: JsonView) -> Seq<char> {
    match item.get_array("content"@) {
        Some(a) => if a.len() == 1 {
            reducer::or_empty(a[0].get_str("text"@))
        } else {
            Seq::empty()
        },
        None => Seq::empty(),
    }
}

/// The text of the items, one after another.
pub open spec fn written(its: Seq<JsonView>) -> Seq<char>
    decreases its.len(),
{
    if its.len() == 0 {
        Seq::empty()
    } else {
        written(its.drop_last()) + item_text(its.last())
    }
}

proof fn lemma_said_add(a: Seq<EventView>, b: Seq<EventView>)
    ensures
        said(a + b) == said(a) + said(b),
    decreases b.len(),
{
    if b.len() == 0 {
        assert(a + b =~= a);
        assert(said(a) + said(b) =~= said(a));
    } else {
        lemma_said_add(a, b.drop_last());
        assert((a + b).drop_last() =~= a + b.drop_last());
        match b.last() {
            EventView::TextDelta(s) => {
                assert(said(a) + said(b.drop_last()) + s =~= said(a) + (said(b.drop_last()) + s));
            },
            _ => {},
        }
    }
}

proof fn lemma_item_texts(text: Seq<char>, id: Seq<char>, name: Seq<char>, args: Seq<char>)
    ensures
        item_text(items::message_view("assistant"@, seq![items::text_part_view("output_text"@, text)]))
            == text,
        item_text(items::function_call_view(id, name, args)) == Seq::<char>::empty(),
{
    items::lemma_member_names();
    reveal_strlit("content");
    reveal_strlit("call_id");
    reveal_strlit("arguments");
    reveal_strlit("name");
    reveal_strlit("type");
    assert("content"@.len() == 7 && "arguments"@.len() == 9 && "name"@.len() == 4 && "type"@.len()
        == 4);
    assert("content"@[1] == 'o' && "call_id"@[1] == 'a');
    reveal_with_fuel(crate::json::lookup, 5);
    let part = items::text_part_view("output_text"@, text);
    let m = items::message_view("assistant"@, seq![part]);
    assert(m->Object_0.last().0 == "content"@);
    assert(m.get("content"@) == Some(JsonView::Array(seq![part])));
    assert(part->Object_0.last().0 == "text"@);
    assert(part.get("text"@) == Some(JsonView::Str(text)));
    let f = items::function_call_view(id, name, args);
    let e = f->Object_0;
    assert(e.last().0 == "arguments"@);
    assert(e.drop_last().last().0 == "name"@);
    assert(e.drop_last().drop_last().last().0 == "call_id"@);
    assert(e.drop_last().drop_last().drop_last().last().0 == "type"@);
    assert(f.get("content"@) is None);
}

proof fn lemma_written_push(its: Seq<JsonView>, item: JsonView)
    ensures
        written(its.push(item)) == written(its) + item_text(item),
{
    assert(its.push(item).drop_last() =~= its);
}

/// Closing a block loses no text.
proof fn lemma_closing_keeps_text(t: Turn)
    ensures
        said(reducer::closed_block(t).out) == Seq::<char>::empty(),
        written(reducer::closed_block(t).turn.items) + reducer::closed_block(t).turn.text
            == written(t.items) + t.text,
{
    lemma_flushing_keeps_text(t);
    reveal_with_fuel(said, 3);
}

proof fn lemma_flushing_keeps_text(t: Turn)
    ensures
        said(reducer::tool_flushed(t).out) == Seq::<char>::empty(),
        written(reducer::tool_flushed(t).turn.items) == written(t.items),
        written(reducer::text_flushed(t).items) + reducer::text_flushed(t).text == written(t.items)
            + t.text,
        reducer::text_flushed(t).text == Seq::<char>::empty(),
{
    reveal_with_fuel(said, 3);
    let args = read_rewrite::sanitized(t.tool_name, t.tool_buf);
    let sent = if args.len() == 0 {
        t.tool_buf
    } else {
        args
    };
    lemma_item_texts(t.text, t.tool_id, t.tool_name, sent);
    let call = items::function_call_view(t.tool_id, t.tool_name, sent);
    lemma_written_push(t.items, call);
    assert(written(t.items) + Seq::<char>::empty() =~= written(t.items));
    let msg = items::message_view(
        "assistant"@,
        seq![items::text_part_view("output_text"@, t.text)],
    );
    lemma_written_push(t.items, msg);
    assert((written(t.items) + t.text) + Seq::<char>::empty() =~= written(t.items) + t.text);
    if t.text.len() == 0 {
        assert(t.text =~= Seq::<char>::empty());
    }
}

/// What a step writes is what it says.
pub open spec fn keeps_text(t: Turn, s: Step) -> bool {
    written(s.turn.items) + s.turn.text == written(t.items) + t.text + said(s.out)
}

proof fn lemma_said_push(es: Seq<EventView>, e: EventView)
    ensures
        said(es.push(e)) == match e {
            EventView::TextDelta(s) => said(es) + s,
            _ => said(es),
        },
{
    assert(es.push(e).drop_last() =~= es);
}

proof fn lemma_steps_keep_text(t: Turn, v: JsonView, delta: Seq<char>)
    ensures
        keeps_text(t, reducer::item_added(t, v)),
        keeps_text(t, reducer::thinking_delta(t, delta)),
        keeps_text(t, reducer::text_delta(t, delta)),
{
    let c = reducer::closed_block(t);
    lemma_closing_keeps_text(t);
    let all = written(t.items) + t.text;
    assert(said(Seq::<EventView>::empty()) =~= Seq::<char>::empty());
    assert(all + Seq::<char>::empty() =~= all);
    let added = reducer::item_added(t, v);
    if added.out.len() > 0 {
        lemma_said_push(c.out, added.out.last());
        assert(added.out =~= c.out.push(added.out.last()));
    } else {
        assert(added =~= reducer::stay(t));
    }
    let thought = EventView::ThinkingDelta(delta);
    lemma_said_push(Seq::empty(), thought);
    assert(Seq::<EventView>::empty().push(thought) =~= seq![thought]);
    lemma_said_push(c.out, EventView::ThinkingStart);
    lemma_said_push(c.out.push(EventView::ThinkingStart), thought);
    let spoken = EventView::TextDelta(delta);
    lemma_said_push(Seq::empty(), spoken);
    assert(Seq::<EventView>::empty().push(spoken) =~= seq![spoken]);
    assert(Seq::<char>::empty() + delta =~= delta);
    lemma_said_push(c.out, EventView::TextStart);
    lemma_said_push(c.out.push(EventView::TextStart), spoken);
    assert(written(t.items) + (t.text + delta) =~= all + delta);
    assert(written(c.turn.items) + (c.turn.text + delta) =~= all + delta);
}

proof fn lemma_ends_keep_text(t: Turn, v: JsonView, incomplete: bool, message: Seq<char>)
    ensures
        keeps_text(t, reducer::stay(t)),
        keeps_text(t, reducer::closed_block(t)),
        keeps_text(t, reducer::arguments_done(t, v)),
        keeps_text(t, reducer::terminal(t, v, incomplete)),
        keeps_text(t, reducer::failed(t, message)),
{
    let c = reducer::closed_block(t);
    lemma_closing_keeps_text(t);
    let all = written(t.items) + t.text;
    assert(said(Seq::<EventView>::empty()) =~= Seq::<char>::empty());
    assert(all + Seq::<char>::empty() =~= all);
    let filled = if t.tool_buf.len() == 0 && v.get_str("arguments"@) is Some {
        Turn { tool_buf: v.get_str("arguments"@)->0, ..t }
    } else {
        t
    };
    lemma_flushing_keeps_text(filled);
    let end = reducer::terminal(t, v, incomplete);
    if !t.terminal_seen {
        lemma_said_push(c.out, end.out.last());
        assert(end.out =~= c.out.push(end.out.last()));
    }
    let error = EventView::Error { message };
    lemma_said_push(Seq::empty(), error);
    assert(Seq::<EventView>::empty().push(error) =~= seq![error]);
}

/// The transcript for the next turn holds the text that the client saw: what is written in the items,
/// with what is still pending, grows by exactly the text that goes out.
pub proof fn law_transcript_holds_what_was_said(t: Turn, v: JsonView)
    ensures
        keeps_text(t, reducer::handled(t, v)),
{
    let delta = reducer::or_empty(v.get_str("delta"@));
    lemma_steps_keep_text(t, v, delta);
    lemma_ends_keep_text(t, v, false, "rate limit reached"@);
    lemma_ends_keep_text(t, v, true, reducer::error_text(v));
    let pause = EventView::ThinkingDelta("\n\n"@);
    lemma_said_push(Seq::empty(), pause);
    assert(Seq::<EventView>::empty().push(pause) =~= seq![pause]);
    let longer = Turn { tool_buf: t.tool_buf + delta, ..t };
    lemma_ends_keep_text(longer, v, true, reducer::error_text(v));
}

/// Over a whole stream, the transcript grows by exactly the text that went out.
pub proof fn law_transcript_of_a_stream(t: Turn, vs: Seq<JsonView>)
    ensures
        keeps_text(t, reducer::handled_all(t, vs)),
    decreases vs.len(),
{
    if vs.len() == 0 {
        lemma_ends_keep_text(t, JsonView::Null, false, Seq::empty());
    } else {
        let before = reducer::handled_all(t, vs.drop_last());
        law_transcript_of_a_stream(t, vs.drop_last());
        law_transcript_holds_what_was_said(before.turn, vs.last());
        let last = reducer::handled(before.turn, vs.last());
        lemma_said_add(before.out, last.out);
        assert((written(t.items) + t.text + said(before.out)) + said(last.out) =~= written(t.items)
            + t.text + (said(before.out) + said(last.out)));
    }
}

/// Taking the items empties the list: nothing is handed over twice.
pub proof fn law_items_are_taken_once(t: Turn)
    ensures
        ({
            let after = Turn { items: Seq::empty(), ..reducer::text_flushed(t) };
            reducer::text_flushed(after) == after && after.items.len() == 0
        }),
{
}

} // verus!
