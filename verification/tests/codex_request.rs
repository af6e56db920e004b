use llmtrim::codex::headers::request_headers;
use llmtrim::codex::input::{content_blocks, flatten_text, image_url, tool_result_output};
use llmtrim::codex::read_rewrite::{
    read_offset_rewrite, read_offset_rewrite_note, sanitize_read_args, strip_absurd_offset,
    ReadOffsetRewrite, Sanitized,
};
use llmtrim::codex::request::{build_format, build_request_body, reasoning_effort, HOST, PATH};
use llmtrim::codex::tools::{build_tool_choice, is_web_search};
use llmtrim::json::Json;

fn json(text: &str) -> Json {
    Json::parse(text.as_bytes()).expect("valid JSON")
}

fn field<'a>(v: &'a Json, key: &str) -> &'a Json {
    v.get(key).expect("member")
}

fn item(v: &Json, i: usize) -> &Json {
    &v.as_array().expect("array")[i]
}

fn string(v: &Json) -> &str {
    v.as_str().expect("string")
}

fn build(text: &str, model: &str, session: Option<&str>) -> Json {
    build_request_body(&json(text), model, session, &[])
}

#[test]
fn system_becomes_instructions() {
    let body = build(r#"{ "system": "Be concise.", "messages": [] }"#, "gpt-5.5", None);
    assert_eq!(string(field(&body, "instructions")), "Be concise.");
}

#[test]
fn system_array_is_flattened() {
    let body = build(
        r#"{
            "system": [
                { "type": "text", "text": "Line 1" },
                { "type": "text", "text": "Line 2" }
            ],
            "messages": []
        }"#,
        "gpt-5.5",
        None,
    );
    assert_eq!(string(field(&body, "instructions")), "Line 1\nLine 2");
}

#[test]
fn user_text_turn_maps_to_input_text() {
    let body = build(
        r#"{
            "messages": [
                { "role": "user", "content": [{ "type": "text", "text": "hi there" }] }
            ]
        }"#,
        "gpt-5.5",
        None,
    );
    let input = field(&body, "input").as_array().expect("input array");
    assert_eq!(input.len(), 1);
    assert_eq!(string(field(&input[0], "type")), "message");
    assert_eq!(string(field(&input[0], "role")), "user");
    let part = item(field(&input[0], "content"), 0);
    assert_eq!(string(field(part, "type")), "input_text");
    assert_eq!(string(field(part, "text")), "hi there");
}

#[test]
fn tool_use_and_result_round_trip() {
    let body = build(
        r#"{
            "messages": [
                { "role": "user", "content": "run it" },
                {
                    "role": "assistant",
                    "content": [
                        { "type": "text", "text": "calling" },
                        { "type": "tool_use", "id": "call_1", "name": "Read", "input": { "path": "x" } }
                    ]
                },
                {
                    "role": "user",
                    "content": [
                        { "type": "tool_result", "tool_use_id": "call_1", "content": "file body" }
                    ]
                }
            ]
        }"#,
        "gpt-5.5",
        None,
    );
    let input = field(&body, "input").as_array().expect("input array");
    // user msg, assistant text msg, function_call, function_call_output
    assert_eq!(input.len(), 4);
    assert_eq!(string(field(&input[0], "role")), "user");
    assert_eq!(string(field(&input[1], "type")), "message");
    assert_eq!(string(field(&input[1], "role")), "assistant");
    assert_eq!(string(field(item(field(&input[1], "content"), 0), "type")), "output_text");
    assert_eq!(string(field(&input[2], "type")), "function_call");
    assert_eq!(string(field(&input[2], "call_id")), "call_1");
    assert_eq!(string(field(&input[2], "name")), "Read");
    assert_eq!(string(field(&input[2], "arguments")), "{\"path\":\"x\"}");
    assert_eq!(string(field(&input[3], "type")), "function_call_output");
    assert_eq!(string(field(&input[3], "call_id")), "call_1");
    assert_eq!(string(field(&input[3], "output")), "file body");
}

#[test]
fn tool_result_error_is_prefixed() {
    let body = build(
        r#"{
            "messages": [
                {
                    "role": "user",
                    "content": [
                        { "type": "tool_result", "tool_use_id": "c1", "content": "boom", "is_error": true }
                    ]
                }
            ]
        }"#,
        "gpt-5.5",
        None,
    );
    assert_eq!(
        string(field(item(field(&body, "input"), 0), "output")),
        "[tool execution error]\nboom"
    );
}

#[test]
fn tools_map_and_web_search_translated() {
    let body = build(
        r#"{
            "messages": [],
            "tools": [
                {
                    "name": "Read",
                    "description": "read a file",
                    "input_schema": { "type": "object" }
                },
                { "type": "web_search_20250305", "name": "web_search",
                  "allowed_domains": ["docs.rs"] }
            ]
        }"#,
        "gpt-5.5",
        None,
    );
    let tools = field(&body, "tools").as_array().expect("tools");
    assert_eq!(tools.len(), 2, "Read function + translated web_search");
    assert_eq!(string(field(&tools[0], "type")), "function");
    assert_eq!(string(field(&tools[0], "name")), "Read");
    assert_eq!(string(field(&tools[1], "type")), "web_search");
    assert_eq!(field(&tools[1], "external_web_access").as_bool(), Some(false));
    assert_eq!(string(item(field(&tools[1], "search_content_types"), 0)), "text");
    assert_eq!(
        string(item(field(field(&tools[1], "filters"), "allowed_domains"), 0)),
        "docs.rs"
    );
}

#[test]
fn web_search_without_filters_omits_filters() {
    let body = build(
        r#"{ "messages": [], "tools": [ { "name": "web_search_20250305" } ] }"#,
        "gpt-5.5",
        None,
    );
    let tools = field(&body, "tools").as_array().expect("tools");
    assert_eq!(string(field(&tools[0], "type")), "web_search");
    assert!(tools[0].get("filters").is_none(), "no filters key when empty");
}

#[test]
fn tool_choice_none_serializes_to_string() {
    let body = build(
        r#"{ "messages": [], "tool_choice": { "type": "none" } }"#,
        "gpt-5.5",
        None,
    );
    let s = body.to_text().expect("serialize");
    assert!(
        s.contains("\"tool_choice\":\"none\""),
        "tool_choice must be the string \"none\", got: {s}"
    );
}

#[test]
fn tool_choice_required_and_specific() {
    assert_eq!(
        build_tool_choice(Some(&json(r#"{ "type": "any" }"#))),
        Some(json("\"required\""))
    );
    assert_eq!(
        build_tool_choice(Some(&json(r#"{ "type": "required" }"#))),
        Some(json("\"required\""))
    );
    assert_eq!(
        build_tool_choice(Some(&json(r#"{ "type": "tool", "name": "Read" }"#))),
        Some(json(r#"{ "type": "function", "name": "Read" }"#))
    );
}

#[test]
fn tool_choice_auto_is_omitted() {
    let body = build(
        r#"{ "messages": [], "tool_choice": { "type": "auto" } }"#,
        "gpt-5.5",
        None,
    );
    assert!(body.get("tool_choice").is_none(), "auto omits tool_choice");
}

#[test]
fn tool_choice_web_search_is_dropped() {
    assert_eq!(
        build_tool_choice(Some(&json(r#"{ "type": "tool", "name": "web_search_20250305" }"#))),
        None
    );
}

#[test]
fn effort_max_maps_to_xhigh_with_include() {
    let body = build(
        r#"{ "messages": [], "output_config": { "effort": "max" } }"#,
        "gpt-5.5",
        None,
    );
    assert_eq!(string(field(field(&body, "reasoning"), "effort")), "xhigh");
    assert_eq!(string(field(field(&body, "reasoning"), "summary")), "auto");
    assert_eq!(string(item(field(&body, "include"), 0)), "reasoning.encrypted_content");
}

#[test]
fn no_effort_omits_reasoning_and_include() {
    let body = build(r#"{ "messages": [] }"#, "gpt-5.5", None);
    assert!(body.get("reasoning").is_none());
    assert!(body.get("include").is_none());
}

#[test]
fn max_tokens_and_sampling_dropped_static_fields_present() {
    let body = build(
        r#"{
            "messages": [],
            "max_tokens": 1024,
            "temperature": 0.7,
            "top_p": 0.9,
            "stop_sequences": ["x"]
        }"#,
        "gpt-5.4",
        Some("sess-1"),
    );
    assert!(body.get("max_tokens").is_none());
    assert!(body.get("temperature").is_none());
    assert!(body.get("top_p").is_none());
    assert!(body.get("stop_sequences").is_none());
    assert_eq!(string(field(&body, "model")), "gpt-5.4");
    assert_eq!(field(&body, "store").as_bool(), Some(false));
    assert_eq!(field(&body, "stream").as_bool(), Some(true));
    assert_eq!(field(&body, "parallel_tool_calls").as_bool(), Some(true));
    assert_eq!(string(field(field(&body, "text"), "verbosity")), "low");
    assert_eq!(string(field(&body, "prompt_cache_key")), "sess-1");
}

#[test]
fn model_passed_through_verbatim() {
    let body = build(r#"{ "messages": [] }"#, "gpt-5.3-codex", None);
    assert_eq!(string(field(&body, "model")), "gpt-5.3-codex");
}

#[test]
fn headers_include_static_and_conditional() {
    let h = request_headers("tok", Some("acc-1"), Some("sess-9"));
    let get = |k: &str| h.iter().find(|(n, _)| n == k).map(|(_, v)| v.clone());
    assert_eq!(get("authorization").as_deref(), Some("Bearer tok"));
    assert_eq!(get("content-type").as_deref(), Some("application/json"));
    assert_eq!(get("accept").as_deref(), Some("text/event-stream"));
    assert_eq!(get("originator").as_deref(), Some("llmtrim"));
    assert_eq!(get("openai-beta").as_deref(), Some("responses=experimental"));
    assert_eq!(get("ChatGPT-Account-Id").as_deref(), Some("acc-1"));
    assert_eq!(get("session_id").as_deref(), Some("sess-9"));
    assert_eq!(get("x-client-request-id").as_deref(), Some("sess-9"));
    assert_eq!(get("x-codex-window-id").as_deref(), Some("sess-9:0"));
    assert!(get("user-agent").unwrap().starts_with("llmtrim/"));
}

#[test]
fn headers_omit_account_and_session_when_absent() {
    let h = request_headers("tok", None, None);
    assert!(h.iter().all(|(n, _)| n != "ChatGPT-Account-Id"));
    assert!(h.iter().all(|(n, _)| n != "session_id"));
    assert!(h.iter().all(|(n, _)| n != "x-codex-window-id"));
}

#[test]
fn request_members_come_in_their_order() {
    let body = build(
        r#"{
            "system": "s",
            "messages": [],
            "tools": [ { "name": "Read" } ],
            "tool_choice": { "type": "any" },
            "output_config": { "effort": "low", "format": { "type": "json_object" } }
        }"#,
        "m",
        Some("sid"),
    );
    assert_eq!(
        body.to_text().expect("serialize"),
        "{\"model\":\"m\",\"instructions\":\"s\",\"input\":[],\
         \"tools\":[{\"type\":\"function\",\"name\":\"Read\",\"parameters\":{}}],\
         \"tool_choice\":\"required\",\"store\":false,\"stream\":true,\
         \"parallel_tool_calls\":true,\"include\":[\"reasoning.encrypted_content\"],\
         \"reasoning\":{\"effort\":\"low\",\"summary\":\"auto\"},\
         \"prompt_cache_key\":\"sid\",\
         \"text\":{\"verbosity\":\"low\",\"format\":{\"type\":\"json_object\"}}}"
    );
}

#[test]
fn developer_and_unknown_roles() {
    let body = build(
        r#"{
            "messages": [
                { "role": "system", "content": [{ "text": "a" }, { "x": 1 }, { "text": "b" }] },
                { "role": "narrator", "content": "once" },
                { "content": 7 }
            ]
        }"#,
        "m",
        None,
    );
    let input = field(&body, "input").as_array().expect("input array");
    assert_eq!(input.len(), 2);
    assert_eq!(string(field(&input[0], "role")), "developer");
    assert_eq!(string(field(item(field(&input[0], "content"), 0), "text")), "a\nb");
    assert_eq!(string(field(&input[1], "role")), "user");
}

#[test]
fn images_become_input_images() {
    assert_eq!(
        image_url(&json(
            r#"{ "source": { "type": "base64", "media_type": "image/png", "data": "AAA" } }"#
        )),
        Some("data:image/png;base64,AAA".to_string())
    );
    assert_eq!(
        image_url(&json(r#"{ "source": { "type": "url", "url": "https://x/y.png" } }"#)),
        Some("https://x/y.png".to_string())
    );
    assert_eq!(image_url(&json(r#"{ "source": { "type": "base64", "data": "AAA" } }"#)), None);
    assert_eq!(image_url(&json(r#"{ "source": { "type": "file" } }"#)), None);
    assert_eq!(image_url(&json(r#"{ "kind": "image" }"#)), None);
    let body = build(
        r#"{ "messages": [ { "role": "user", "content": [
            { "type": "text", "text": "see" },
            { "type": "image", "source": { "type": "url", "url": "u" } }
        ] } ] }"#,
        "m",
        None,
    );
    let content = field(item(field(&body, "input"), 0), "content");
    assert_eq!(
        *item(content, 1),
        json(r#"{ "type": "input_image", "image_url": "u", "detail": null }"#)
    );
}

#[test]
fn tool_results_flatten_their_parts() {
    let block = json(
        r#"{ "content": [ { "type": "text", "text": "one" }, { "type": "image" }, { "type": "x" } ] }"#,
    );
    assert_eq!(tool_result_output(&block), "one\n[image omitted]\n");
    assert_eq!(tool_result_output(&json("{}")), "");
}

#[test]
fn tool_arguments_default_to_an_empty_object() {
    let body = build(
        r#"{ "messages": [ { "role": "assistant", "content": [
            { "type": "tool_use", "id": "a", "name": "A" },
            { "type": "tool_use", "id": "b", "name": "B", "input": null }
        ] } ] }"#,
        "m",
        None,
    );
    let input = field(&body, "input").as_array().expect("input array");
    assert_eq!(string(field(&input[0], "arguments")), "{}");
    assert_eq!(string(field(&input[1], "arguments")), "{}");
}

#[test]
fn text_and_blocks_of_content() {
    assert_eq!(flatten_text(&json("\"plain\"")), "plain");
    assert_eq!(flatten_text(&json("3")), "");
    assert_eq!(
        content_blocks(&json("\"hi\"")),
        vec![json(r#"{ "type": "text", "text": "hi" }"#)]
    );
    assert!(content_blocks(&json("null")).is_empty());
    assert_eq!(content_blocks(&json("[1, 2]")).len(), 2);
}

#[test]
fn efforts_and_formats() {
    let effort = |e: &str| {
        reasoning_effort(&json(&format!("{{ \"output_config\": {{ \"effort\": \"{e}\" }} }}")))
    };
    assert_eq!(effort("xhigh").as_deref(), Some("xhigh"));
    assert_eq!(effort("medium").as_deref(), Some("medium"));
    assert_eq!(effort("none"), None);
    assert_eq!(
        build_format(&json(r#"{ "type": "json_schema", "schema": { "a": 1 } }"#)),
        json(r#"{ "type": "json_schema", "name": "response", "schema": { "a": 1 }, "strict": true }"#)
    );
    assert_eq!(build_format(&json(r#"{ "type": "yaml" }"#)), json(r#"{ "type": "text" }"#));
    assert!(is_web_search(&json(r#"{ "type": "web_search_20250305" }"#)));
    assert!(!is_web_search(&json(r#"{ "name": "web_search" }"#)));
    assert_eq!(HOST, "chatgpt.com");
    assert_eq!(PATH, "/backend-api/codex/responses");
}

#[test]
fn absurd_read_offsets_are_stripped() {
    assert_eq!(
        sanitize_read_args("Read", "{\"file_path\":\"/a\",\"offset\":5000000,\"limit\":10}"),
        Sanitized { args: "{\"file_path\":\"/a\",\"limit\":10}".to_string(), removed: Some(5000000) }
    );
    assert_eq!(
        sanitize_read_args("Read", "{\"offset\": 1000000}"),
        Sanitized { args: "{\"offset\": 1000000}".to_string(), removed: None }
    );
    assert_eq!(
        sanitize_read_args("Grep", "{\"offset\": 5000000}"),
        Sanitized { args: "{\"offset\": 5000000}".to_string(), removed: None }
    );
    assert_eq!(
        sanitize_read_args("Read", "{\"offset\": 50"),
        Sanitized { args: "{\"offset\": 50".to_string(), removed: None }
    );
    assert_eq!(
        strip_absurd_offset("Read", &json("{\"offset\": 1000001}")),
        Some((json("{}"), 1000001))
    );
}

#[test]
fn a_repaired_read_is_explained_with_its_result() {
    let rewrites = vec![
        ReadOffsetRewrite { call_id: "c1".to_string(), offset: 7000000 },
        ReadOffsetRewrite { call_id: "c1".to_string(), offset: 8000000 },
    ];
    let latest = read_offset_rewrite(&rewrites, "c1").expect("rewritten");
    assert_eq!(latest.offset, 8000000);
    assert!(read_offset_rewrite(&rewrites, "c2").is_none());
    let note = read_offset_rewrite_note(latest);
    assert!(note.contains("offset=8000000"), "{note}");
    let body = build_request_body(
        &json(
            r#"{ "messages": [ { "role": "user", "content": [
                { "type": "tool_result", "tool_use_id": "c1", "content": "no lines" }
            ] } ] }"#,
        ),
        "m",
        None,
        &rewrites,
    );
    assert_eq!(
        string(field(item(field(&body, "input"), 0), "output")),
        format!("no lines\n\n{note}")
    );
}

#[test]
fn plain_trees_are_read_back_from_their_text() {
    let v = json("{\"b\":[1,-9223372036854775808,{\"a\":\"\\u0001\\\"é😀\"}],\"a\":null,\"c\":[true,{}]}");
    let text = v.to_text().expect("text");
    assert_eq!(text, "{\"b\":[1,-9223372036854775808,{\"a\":\"\\u0001\\\"é😀\"}],\"a\":null,\"c\":[true,{}]}");
    assert_eq!(json(&text), v);
    let nested = |n: usize| format!("{}{}", "[".repeat(n), "]".repeat(n));
    assert_eq!(json(&nested(127)).to_text(), Some(nested(127)));
    assert_eq!(Json::parse(nested(128).as_bytes()), None);
    assert_eq!(Json::parse(b"{\"a\":1,\"a\":2}").and_then(|v| v.get_i64("a")), Some(2));
}

#[test]
fn a_repaired_call_needs_no_repair() {
    let once = sanitize_read_args("Read", "{\"offset\":2000000,\"a\":{\"offset\":3000000}}");
    assert_eq!(once.removed, Some(2000000));
    assert_eq!(once.args, "{\"a\":{\"offset\":3000000}}");
    let twice = sanitize_read_args("Read", &once.args);
    assert_eq!(twice, Sanitized { args: once.args, removed: None });
}

#[test]
fn the_hosted_web_search_is_never_forced() {
    let tools = r#"[ { "type": "web_search_20250305", "name": "web_search" }, { "name": "Read" } ]"#;
    let choice = |name: &str| {
        let text = format!(
            r#"{{ "messages": [], "tools": {tools}, "tool_choice": {{ "type": "tool", "name": "{name}" }} }}"#
        );
        build(&text, "gpt-5.5", None).get("tool_choice").cloned()
    };
    assert_eq!(choice("web_search"), None);
    assert_eq!(choice("web_search_20250305"), None);
    assert_eq!(choice("Read"), Some(json(r#"{ "type": "function", "name": "Read" }"#)));
    // A word is no choice of a tool, whatever else stands beside it.
    let body = build(
        &format!(
            r#"{{ "messages": [], "tools": {tools}, "tool_choice": {{ "type": "any", "name": "web_search" }} }}"#
        ),
        "gpt-5.5",
        None,
    );
    assert_eq!(body.get_str("tool_choice"), Some("required"));
}
