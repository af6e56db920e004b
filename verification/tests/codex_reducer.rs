use llmtrim::codex::read_rewrite::ReadOffsetRewrite;
use llmtrim::codex::reducer::{error_message, map_usage, rate_limited, Reducer};
use llmtrim::codex::sse::{ReduceEvent, SseLineParser, StopReason, Usage};
use llmtrim::json::Json;

fn json(text: &str) -> Json {
    Json::parse(text.as_bytes()).expect("valid JSON")
}

/// Feed a whole SSE string through a fresh reducer in one shot.
fn reduce(sse: &str) -> (Vec<ReduceEvent>, Reducer) {
    let mut r = Reducer::new("gpt-5.5");
    let events = r.push(sse.as_bytes());
    (events, r)
}

fn tool_deltas(events: &[ReduceEvent]) -> Vec<&str> {
    events
        .iter()
        .filter_map(|e| match e {
            ReduceEvent::ToolDelta(s) => Some(s.as_str()),
            _ => None,
        })
        .collect()
}

fn eligibility(events: &[ReduceEvent]) -> bool {
    events
        .iter()
        .find_map(|e| match e {
            ReduceEvent::Finish { continuation_eligible, .. } => Some(*continuation_eligible),
            _ => None,
        })
        .unwrap()
}

#[test]
fn text_stream_produces_wellformed_events() {
    let sse = [
        "data: {\"type\":\"response.output_item.added\",\"output_index\":0,\"item\":{\"type\":\"message\",\"id\":\"msg_1\"}}\n\n",
        "data: {\"type\":\"response.output_text.delta\",\"output_index\":0,\"delta\":\"Hello\"}\n\n",
        "data: {\"type\":\"response.output_text.delta\",\"output_index\":0,\"delta\":\" world\"}\n\n",
        "data: {\"type\":\"response.output_item.done\",\"output_index\":0,\"item\":{\"type\":\"message\"}}\n\n",
        "data: {\"type\":\"response.completed\",\"response\":{\"usage\":{\"input_tokens\":10,\"input_tokens_details\":{\"cached_tokens\":3},\"output_tokens\":5}}}\n\n",
    ]
    .concat();
    let (events, _) = reduce(&sse);
    assert_eq!(
        events,
        vec![
            ReduceEvent::TextStart,
            ReduceEvent::TextDelta("Hello".into()),
            ReduceEvent::TextDelta(" world".into()),
            ReduceEvent::TextStop,
            ReduceEvent::Finish {
                stop_reason: StopReason::EndTurn,
                usage: Usage { input: 7, output: 5, cache_read: 3, cache_write: 0 },
                response_id: None,
                continuation_eligible: true,
            },
        ]
    );
}

#[test]
fn function_call_args_split_across_frames() {
    let sse = [
        "data: {\"type\":\"response.output_item.added\",\"output_index\":0,\"item\":{\"type\":\"function_call\",\"call_id\":\"call_1\",\"name\":\"Read\"}}\n\n",
        "data: {\"type\":\"response.function_call_arguments.delta\",\"output_index\":0,\"delta\":\"{\\\"path\\\":\"}\n\n",
        "data: {\"type\":\"response.function_call_arguments.delta\",\"output_index\":0,\"delta\":\"\\\"x\\\"}\"}\n\n",
        "data: {\"type\":\"response.function_call_arguments.done\",\"output_index\":0,\"arguments\":\"{\\\"path\\\":\\\"x\\\"}\"}\n\n",
        "data: {\"type\":\"response.output_item.done\",\"output_index\":0,\"item\":{\"type\":\"function_call\"}}\n\n",
        "data: {\"type\":\"response.completed\",\"response\":{\"usage\":{\"input_tokens\":4,\"output_tokens\":2}}}\n\n",
    ]
    .concat();
    let (events, _) = reduce(&sse);
    assert_eq!(
        events,
        vec![
            ReduceEvent::ToolStart { id: "call_1".into(), name: "Read".into() },
            // Buffered across frames and emitted once, complete, on `done`.
            ReduceEvent::ToolDelta("{\"path\":\"x\"}".into()),
            ReduceEvent::ToolStop,
            ReduceEvent::Finish {
                stop_reason: StopReason::ToolUse,
                usage: Usage { input: 4, output: 2, cache_read: 0, cache_write: 0 },
                response_id: None,
                continuation_eligible: true,
            },
        ]
    );
}

#[test]
fn foreign_item_done_does_not_flush_a_half_buffered_tool() {
    let sse = [
        "data: {\"type\":\"response.output_item.added\",\"output_index\":1,\"item\":{\"type\":\"function_call\",\"call_id\":\"call_9\",\"name\":\"Read\"}}\n\n",
        "data: {\"type\":\"response.function_call_arguments.delta\",\"output_index\":1,\"delta\":\"{\\\"file_path\\\":\"}\n\n",
        "data: {\"type\":\"response.output_item.done\",\"output_index\":0,\"item\":{\"type\":\"web_search_call\"}}\n\n",
        "data: {\"type\":\"response.function_call_arguments.delta\",\"output_index\":1,\"delta\":\"\\\"/a\\\"}\"}\n\n",
        "data: {\"type\":\"response.function_call_arguments.done\",\"output_index\":1,\"arguments\":\"{\\\"file_path\\\":\\\"/a\\\"}\"}\n\n",
        "data: {\"type\":\"response.output_item.done\",\"output_index\":1,\"item\":{\"type\":\"function_call\"}}\n\n",
        "data: {\"type\":\"response.completed\",\"response\":{\"usage\":{\"input_tokens\":1,\"output_tokens\":1}}}\n\n",
    ]
    .concat();
    let (events, _) = reduce(&sse);
    assert_eq!(
        tool_deltas(&events),
        vec!["{\"file_path\":\"/a\"}"],
        "one complete delta, not truncated"
    );
}

#[test]
fn read_tool_call_with_absurd_offset_is_sanitized() {
    let sse = [
        "data: {\"type\":\"response.output_item.added\",\"output_index\":0,\"item\":{\"type\":\"function_call\",\"call_id\":\"call_off\",\"name\":\"Read\"}}\n\n",
        "data: {\"type\":\"response.function_call_arguments.done\",\"output_index\":0,\"arguments\":\"{\\\"file_path\\\":\\\"/a\\\",\\\"offset\\\":5000000}\"}\n\n",
        "data: {\"type\":\"response.output_item.done\",\"output_index\":0,\"item\":{\"type\":\"function_call\"}}\n\n",
        "data: {\"type\":\"response.completed\",\"response\":{\"usage\":{\"input_tokens\":1,\"output_tokens\":1}}}\n\n",
    ]
    .concat();
    let (events, mut r) = reduce(&sse);
    let emitted = tool_deltas(&events);
    assert_eq!(emitted.len(), 1, "one complete, sanitized args delta");
    let args = json(emitted[0]);
    assert!(args.get("offset").is_none(), "absurd offset stripped: {}", emitted[0]);
    assert_eq!(args.get_str("file_path"), Some("/a"));
    assert_eq!(
        r.take_rewrites(),
        vec![ReadOffsetRewrite { call_id: "call_off".to_string(), offset: 5000000 }]
    );
    assert!(r.take_rewrites().is_empty());
}

#[test]
fn args_done_fills_when_no_deltas_arrived() {
    let sse = [
        "data: {\"type\":\"response.output_item.added\",\"output_index\":0,\"item\":{\"type\":\"function_call\",\"call_id\":\"c\",\"name\":\"Ls\"}}\n\n",
        "data: {\"type\":\"response.function_call_arguments.done\",\"output_index\":0,\"arguments\":\"{}\"}\n\n",
    ]
    .concat();
    let (events, _) = reduce(&sse);
    assert_eq!(
        events,
        vec![
            ReduceEvent::ToolStart { id: "c".into(), name: "Ls".into() },
            ReduceEvent::ToolDelta("{}".into()),
        ]
    );
}

#[test]
fn reasoning_then_text_closes_thinking_first() {
    let sse = [
        "data: {\"type\":\"response.reasoning_summary_text.delta\",\"output_index\":0,\"delta\":\"pondering\"}\n\n",
        "data: {\"type\":\"response.output_item.added\",\"output_index\":1,\"item\":{\"type\":\"message\",\"id\":\"m\"}}\n\n",
        "data: {\"type\":\"response.output_text.delta\",\"output_index\":1,\"delta\":\"answer\"}\n\n",
    ]
    .concat();
    let (events, _) = reduce(&sse);
    assert_eq!(
        events,
        vec![
            ReduceEvent::ThinkingStart,
            ReduceEvent::ThinkingDelta("pondering".into()),
            ReduceEvent::ThinkingStop,
            ReduceEvent::TextStart,
            ReduceEvent::TextDelta("answer".into()),
        ]
    );
}

#[test]
fn empty_reasoning_delta_emits_nothing() {
    let sse = "data: {\"type\":\"response.reasoning_summary_text.delta\",\"delta\":\"\"}\n\n";
    let (events, _) = reduce(sse);
    assert!(events.is_empty());
}

#[test]
fn rate_limit_frame_becomes_error() {
    let sse = "data: {\"type\":\"codex.rate_limits\",\"limit_reached\":true}\n\n";
    let (events, r) = reduce(sse);
    assert_eq!(events.len(), 1);
    assert!(matches!(events[0], ReduceEvent::Error { .. }));
    assert!(r.terminal_seen());
}

#[test]
fn failed_frame_carries_message() {
    let sse = "data: {\"type\":\"response.failed\",\"response\":{\"error\":{\"message\":\"nope\"}}}\n\n";
    let (events, _) = reduce(sse);
    assert_eq!(events, vec![ReduceEvent::Error { message: "nope".into() }]);
}

#[test]
fn truncated_stream_finish_closes_open_block() {
    let sse = [
        "data: {\"type\":\"response.output_item.added\",\"output_index\":0,\"item\":{\"type\":\"message\",\"id\":\"m\"}}\n\n",
        "data: {\"type\":\"response.output_text.delta\",\"output_index\":0,\"delta\":\"partial\"}\n\n",
    ]
    .concat();
    let mut r = Reducer::new("gpt-5.5");
    let streamed = r.push(sse.as_bytes());
    assert_eq!(
        streamed,
        vec![ReduceEvent::TextStart, ReduceEvent::TextDelta("partial".into())]
    );
    let flushed = r.finish();
    assert_eq!(
        flushed,
        vec![
            ReduceEvent::TextStop,
            ReduceEvent::Finish {
                stop_reason: StopReason::EndTurn,
                usage: Usage::default(),
                response_id: None,
                continuation_eligible: false,
            },
        ]
    );
}

#[test]
fn finish_is_noop_after_terminal() {
    let sse = "data: {\"type\":\"response.completed\",\"response\":{\"usage\":{\"input_tokens\":1,\"output_tokens\":1}}}\n\n";
    let (_, mut r) = reduce(sse);
    assert!(r.finish().is_empty());
}

#[test]
fn completed_sets_continuation_eligible_true() {
    let sse = [
        "data: {\"type\":\"response.output_item.added\",\"output_index\":0,\"item\":{\"type\":\"message\",\"id\":\"m\"}}\n\n",
        "data: {\"type\":\"response.output_text.delta\",\"output_index\":0,\"delta\":\"ok\"}\n\n",
        "data: {\"type\":\"response.output_item.done\",\"output_index\":0,\"item\":{\"type\":\"message\"}}\n\n",
        "data: {\"type\":\"response.completed\",\"response\":{\"usage\":{\"input_tokens\":1,\"output_tokens\":1}}}\n\n",
    ]
    .concat();
    let (events, _) = reduce(&sse);
    assert!(eligibility(&events), "completed should be eligible");
}

#[test]
fn incomplete_sets_continuation_eligible_false() {
    let sse = [
        "data: {\"type\":\"response.output_item.added\",\"output_index\":0,\"item\":{\"type\":\"message\",\"id\":\"m\"}}\n\n",
        "data: {\"type\":\"response.output_text.delta\",\"output_index\":0,\"delta\":\"partial\"}\n\n",
        "data: {\"type\":\"response.incomplete\",\"response\":{\"usage\":{\"input_tokens\":1,\"output_tokens\":0}}}\n\n",
    ]
    .concat();
    let (events, _) = reduce(&sse);
    assert!(
        !eligibility(&events),
        "incomplete should not be eligible for continuation"
    );
}

const LONG_STREAM: [&str; 9] = [
    "event: x\r\n",
    "data: {\"type\":\"response.reasoning_summary_text.delta\",\"delta\":\"hm\"}\r\n\r\n",
    "data: {\"type\":\"response.reasoning_summary_part.added\"}\n\n",
    "data: not json\n\n",
    "data: {\"type\":\"response.output_text.delta\",\"delta\":\"a\"}\n\n",
    "data: {\"type\":\"response.output_item.added\",\"output_index\":2,\"item\":{\"type\":\"function_call\",\"call_id\":\"c\",\"name\":\"Ls\"}}\n\n",
    "data: {\"type\":\"response.function_call_arguments.delta\",\"delta\":\"{}\"}\n\n",
    "data: {\"type\":\"response.completed\",\"response\":{\"id\":\"resp_1\",\"usage\":{\"input_tokens\":1}}}\n\n",
    "data: {\"type\":\"response.completed\",\"response\":{\"id\":\"resp_2\"}}\n\n",
];

#[test]
fn chunk_boundaries_do_not_matter() {
    let sse = LONG_STREAM.concat();
    let (whole, mut one) = reduce(&sse);
    let mut two = Reducer::new("gpt-5.5");
    let mut pieces = Vec::new();
    for b in sse.as_bytes() {
        pieces.extend(two.push(&[*b]));
    }
    assert_eq!(whole, pieces);
    assert_eq!(one.take_output_items(), two.take_output_items());
}

#[test]
fn a_turn_finishes_once_and_brackets_its_blocks() {
    let (events, mut r) = reduce(&LONG_STREAM.concat());
    assert_eq!(
        events,
        vec![
            ReduceEvent::ThinkingStart,
            ReduceEvent::ThinkingDelta("hm".into()),
            ReduceEvent::ThinkingDelta("\n\n".into()),
            ReduceEvent::ThinkingStop,
            ReduceEvent::TextStart,
            ReduceEvent::TextDelta("a".into()),
            ReduceEvent::TextStop,
            ReduceEvent::ToolStart { id: "c".into(), name: "Ls".into() },
            ReduceEvent::ToolDelta("{}".into()),
            ReduceEvent::ToolStop,
            ReduceEvent::Finish {
                stop_reason: StopReason::ToolUse,
                usage: Usage { input: 1, output: 0, cache_read: 0, cache_write: 0 },
                response_id: Some("resp_1".into()),
                continuation_eligible: true,
            },
        ]
    );
    assert!(r.finish().is_empty());
    assert!(r.finish().is_empty());
}

#[test]
fn output_items_hold_the_transcript_and_are_taken_once() {
    let (_, mut r) = reduce(&LONG_STREAM.concat());
    assert_eq!(
        r.take_output_items(),
        vec![
            json(r#"{"type":"message","role":"assistant","content":[{"type":"output_text","text":"a"}]}"#),
            json(r#"{"type":"function_call","call_id":"c","name":"Ls","arguments":"{}"}"#),
        ]
    );
    assert!(r.take_output_items().is_empty());
}

#[test]
fn no_finish_follows_an_error() {
    let sse = [
        "data: {\"type\":\"error\",\"message\":\"bad\"}\n",
        "data: {\"type\":\"response.completed\"}\n",
    ]
    .concat();
    let (events, mut r) = reduce(&sse);
    assert_eq!(events, vec![ReduceEvent::Error { message: "bad".into() }]);
    assert!(r.finish().is_empty());
}

#[test]
fn usage_counts_fresh_input() {
    assert_eq!(
        map_usage(&json(
            r#"{"input_tokens": 3, "input_tokens_details": {"cached_tokens": 9}, "output_tokens": 2}"#
        )),
        Usage { input: 0, output: 2, cache_read: 9, cache_write: 0 }
    );
    assert_eq!(map_usage(&json("{}")), Usage::default());
}

#[test]
fn error_messages_and_limits() {
    assert_eq!(error_message(&json(r#"{"error":{"message":"e"},"message":"m"}"#)), "e");
    assert_eq!(error_message(&json(r#"{"message":"m"}"#)), "m");
    assert_eq!(error_message(&json("{}")), "upstream error");
    assert!(rate_limited(&json(r#"{"rate_limits":{"limit_reached":true}}"#)));
    assert!(!rate_limited(&json(r#"{"limit_reached":false}"#)));
}

#[test]
fn lines_wait_for_their_end() {
    let mut p = SseLineParser::new();
    assert!(p.push(b"data: {\"a\"").is_empty());
    assert_eq!(p.push(b":1}\ndata:2\nid: 3\n"), vec![json("{\"a\":1}"), json("2")]);
}

#[test]
fn the_end_says_how_the_turn_went() {
    let call = json(
        r#"{ "type": "response.output_item.added", "item": { "type": "function_call", "name": "f" } }"#,
    );
    let done = json(r#"{ "type": "response.completed", "id": "outer", "response": { "id": "inner" } }"#);
    let cut = json(r#"{ "type": "response.incomplete", "id": "outer", "response": { "id": 3 } }"#);
    let end = |values: &[&Json]| {
        let mut r = Reducer::new("m");
        let mut out = Vec::new();
        for v in values {
            r.handle(v, &mut out);
        }
        match out.last() {
            Some(ReduceEvent::Finish { stop_reason, response_id, continuation_eligible, .. }) => {
                (*stop_reason, response_id.clone(), *continuation_eligible)
            }
            other => panic!("not a finish: {other:?}"),
        }
    };
    assert_eq!(end(&[&done]), (StopReason::EndTurn, Some("inner".to_string()), true));
    assert_eq!(end(&[&call, &done]), (StopReason::ToolUse, Some("inner".to_string()), true));
    assert_eq!(end(&[&call, &cut]), (StopReason::MaxTokens, Some("outer".to_string()), false));
    // The first end is the last.
    assert_eq!(end(&[&done, &cut, &done]), (StopReason::EndTurn, Some("inner".to_string()), true));
}
