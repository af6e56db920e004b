use llmtrim::json::Json;
use llmtrim::pointer::{escaped, find, index_pointer, key_pointer};
use llmtrim::provider::pointers::{message_text_pointers, string_leaf_pointers, text_block_ptr};
use llmtrim::provider::{
    append_stop, detect, for_each_content_block, retain_tools_array, role_in_messages, turn_index,
    Provider, ProviderKind, Request, Role,
};

fn json(text: &str) -> Json {
    Json::parse(text.as_bytes()).expect("valid JSON")
}

#[test]
fn roles_are_normalized() {
    assert_eq!(Role::from_str("developer"), Role::System);
    assert_eq!(Role::from_str("system"), Role::System);
    assert_eq!(Role::from_str("model"), Role::Assistant);
    assert_eq!(Role::from_str("assistant"), Role::Assistant);
    assert_eq!(Role::from_str("function"), Role::Tool);
    assert_eq!(Role::from_str("tool"), Role::Tool);
    assert_eq!(Role::from_str("narrator"), Role::User);
}

#[test]
fn turns_of_pointers() {
    assert_eq!(turn_index("/messages/3/content/0/text"), Some(3));
    assert_eq!(turn_index("/input/12"), Some(12));
    assert_eq!(turn_index("/contents/0/parts/1/text"), Some(0));
    assert_eq!(turn_index("/messages/+7/x"), Some(7));
    assert_eq!(turn_index("/messages/007"), Some(7));
    assert_eq!(turn_index("/messages//content"), None);
    assert_eq!(turn_index("/messages/+"), None);
    assert_eq!(turn_index("/messages/-1"), None);
    assert_eq!(turn_index("/messages/18446744073709551615"), Some(usize::MAX));
    assert_eq!(turn_index("/messages/18446744073709551616"), None);
    assert_eq!(turn_index("/system/0"), None);
}

#[test]
fn roles_of_turns() {
    let req = Request::new(json(
        r#"{ "messages": [ { "role": "tool" }, { "role": 1 }, { "role": "model" } ] }"#,
    ));
    assert_eq!(role_in_messages(&req, "/messages/0/content"), Some(Role::Tool));
    assert_eq!(role_in_messages(&req, "/messages/1/content"), None);
    // Any list of turns is looked up under `messages`.
    assert_eq!(role_in_messages(&req, "/input/2/content"), Some(Role::Assistant));
    assert_eq!(role_in_messages(&req, "/messages/9/content"), None);
    assert_eq!(role_in_messages(&req, "/system"), None);
}

#[test]
fn string_leaves_are_addressed() {
    let v = json(r#"{ "a/b": ["x", 1, { "~": "y" }], "n": null, "": "z" }"#);
    let mut out = vec!["first".to_string()];
    string_leaf_pointers(&v, "/p", &mut out);
    assert_eq!(out, vec!["first", "/p/a~1b/0", "/p/a~1b/2/~0", "/p/"]);
    for p in &out[1..] {
        assert!(find(&v, &p[2..]).expect("addressed").as_str().is_some());
    }
}

#[test]
fn message_texts_are_addressed() {
    let ms = json(
        r#"[
            { "content": "plain" },
            { "content": [
                { "type": "text", "text": "t" },
                { "type": "text", "text": 5 },
                { "type": "tool_result", "content": "r" },
                { "type": "tool_result", "content": [ { "type": "text", "text": "in" }, { "type": "image" } ] },
                { "type": "tool_use", "input": { "k": "v" } },
                { "type": "document", "source": { "media_type": "text/plain", "data": "d" } },
                { "type": "document", "source": { "data": "d" } },
                { "type": "document", "source": { "media_type": "application/pdf", "data": "d" } }
            ] },
            { "tool_calls": [ { "function": { "arguments": "{}" } }, { "function": {} } ] }
        ]"#,
    );
    let mut out = Vec::new();
    message_text_pointers(&ms, &mut out);
    assert_eq!(
        out,
        vec![
            "/messages/0/content",
            "/messages/1/content/0/text",
            "/messages/1/content/2/content",
            "/messages/1/content/3/content/0/text",
            "/messages/1/content/4/input/k",
            "/messages/1/content/5/source/data",
            "/messages/1/content/6/source/data",
            "/messages/2/tool_calls/0/function/arguments",
        ]
    );
    let text = ms.to_text().expect("text");
    let body = json(&format!("{{\"messages\":{text}}}"));
    for p in &out {
        assert!(find(&body, p).expect("addressed").as_str().is_some(), "{p}");
        assert!(turn_index(p).is_some(), "{p}");
    }
    let before = out.len();
    message_text_pointers(&json("{}"), &mut out);
    assert_eq!(out.len(), before);
}

#[test]
fn text_blocks() {
    assert_eq!(
        text_block_ptr(&json(r#"{ "type": "text", "text": "" }"#), "/b"),
        Some("/b/text".to_string())
    );
    assert_eq!(text_block_ptr(&json(r#"{ "type": "txt", "text": "" }"#), "/b"), None);
    assert_eq!(text_block_ptr(&json(r#"{ "type": "text" }"#), "/b"), None);
}

#[test]
fn pointers_read_back_what_they_name() {
    let v = json(r#"{ "a~b/c": [10, { "k": "deep" }], "~1": "tilde one" }"#);
    assert_eq!(escaped("a~b/c"), "a~0b~1c");
    let list = key_pointer("", "a~b/c");
    assert_eq!(list, "/a~0b~1c");
    let inner = index_pointer(&list, 1);
    assert_eq!(inner, "/a~0b~1c/1");
    assert_eq!(find(&v, &key_pointer(&inner, "k")).and_then(Json::as_str), Some("deep"));
    assert_eq!(find(&v, &key_pointer("", "~1")).and_then(Json::as_str), Some("tilde one"));
    assert_eq!(find(&v, ""), Some(&v));
    assert_eq!(find(&v, "nope"), None);
    assert_eq!(find(&v, "/a~0b~1c/01"), None);
    assert_eq!(find(&v, "/a~0b~1c/+1"), None);
    assert_eq!(find(&v, "/a~0b~1c/2"), None);
}

#[test]
fn shapes_point_to_providers() {
    assert_eq!(detect(&json(r#"{ "contents": [] }"#)), Some(ProviderKind::Google));
    assert_eq!(detect(&json(r#"{ "generation_config": 1, "system": 1 }"#)), Some(ProviderKind::Google));
    assert_eq!(detect(&json(r#"{ "system": "s", "messages": [] }"#)), Some(ProviderKind::Anthropic));
    assert_eq!(detect(&json(r#"{ "input": [], "instructions": "" }"#)), Some(ProviderKind::OpenAi));
    assert_eq!(detect(&json(r#"{ "response_format": {} }"#)), Some(ProviderKind::OpenAi));
    assert_eq!(
        detect(&json(r#"{ "messages": [ { "role": "user" }, { "role": "system" } ] }"#)),
        Some(ProviderKind::OpenAi)
    );
    assert_eq!(detect(&json(r#"{ "messages": [ { "role": "user" } ], "max_tokens": 1 }"#)), None);
    assert_eq!(detect(&json(r#"{ "input": [] }"#)), None);
    assert_eq!(detect(&json("[]")), None);
}

#[test]
fn stop_sequences_are_appended() {
    let mut v = json("{}");
    append_stop(&mut v, "stop", "a");
    assert_eq!(v, json(r#"{ "stop": ["a"] }"#));
    append_stop(&mut v, "stop", "b");
    assert_eq!(v, json(r#"{ "stop": ["a", "b"] }"#));
    let mut v = json(r#"{ "stop": "one", "x": true }"#);
    append_stop(&mut v, "stop", "two");
    assert_eq!(v, json(r#"{ "stop": ["one", "two"], "x": true }"#));
    let mut v = json(r#"{ "stop": null }"#);
    append_stop(&mut v, "stop", "a");
    assert_eq!(v, json(r#"{ "stop": ["a"] }"#));
    let mut v = json("\"text\"");
    append_stop(&mut v, "stop", "a");
    assert_eq!(v, json("\"text\""));
}

#[test]
fn tools_are_retained_by_their_flags() {
    let mut req = Request::new(json(r#"{ "tools": ["a", "b", "c", "d"] }"#));
    retain_tools_array(&mut req, &[false, true, false]);
    assert_eq!(*req.raw(), json(r#"{ "tools": ["b", "d"] }"#));
    let mut req = Request::new(json(r#"{ "tools": "none" }"#));
    retain_tools_array(&mut req, &[false]);
    assert_eq!(*req.raw(), json(r#"{ "tools": "none" }"#));
}

#[test]
fn blocks_are_changed_in_place() {
    let mut req = Request::new(json(
        r#"{ "messages": [ { "content": [1, 2], "role": "user" }, { "content": "s" }, 3 ], "x": "y" }"#,
    ));
    for_each_content_block(&mut req, |_b: &Json| Json::text("new"));
    assert_eq!(
        *req.raw(),
        json(
            r#"{ "messages": [ { "content": ["new", "new"], "role": "user" }, { "content": "s" }, 3 ], "x": "y" }"#
        )
    );
}

struct Adapter;

impl Provider for Adapter {
    fn kind(&self) -> ProviderKind {
        ProviderKind::OpenAi
    }
    fn content_text_pointers(&self, req: &Request) -> Vec<String> {
        let mut out = Vec::new();
        if let Some(messages) = req.raw().get("messages") {
            message_text_pointers(messages, &mut out);
        }
        out
    }
    fn set_max_tokens(&self, _req: &mut Request, _max_tokens: u64) {}
    fn max_tokens(&self, _req: &Request) -> Option<u64> {
        None
    }
    fn add_stop_sequence(&self, req: &mut Request, stop: &str) {
        append_stop(&mut req.raw, "stop", stop);
    }
    fn add_system_instruction(&self, _req: &mut Request, _instruction: &str) {}
    fn bind_structured_output(&self, _req: &mut Request, _name: &str, _schema: Json) {}
    fn set_cache_breakpoints(&self, _req: &mut Request, _max: usize) {}
    fn set_prompt_cache_key(&self, _req: &mut Request, _key: &str) {}
    fn tool_descriptors(&self, _req: &Request) -> Vec<(String, String)> {
        Vec::new()
    }
    fn retain_tools(&self, req: &mut Request, keep: &[bool]) {
        retain_tools_array(req, keep);
    }
    fn truncate_tool_descriptions(&self, _req: &mut Request, _max_chars: usize) {}
    fn answer_text(&self, _response: &Json) -> Option<String> {
        None
    }
    fn set_image_detail(&self, _req: &mut Request, _tier: &str) {}
    fn downscale_images(&self, _req: &mut Request) {}
}

#[test]
fn adapters_find_roles_and_can_be_chosen_at_run_time() {
    let adapter: Box<dyn Provider> = Box::new(Adapter);
    let mut req = Request::new(json(r#"{ "messages": [ { "role": "user", "content": "hi" } ] }"#));
    let pointers = adapter.content_text_pointers(&req);
    assert_eq!(pointers, vec!["/messages/0/content"]);
    assert_eq!(adapter.role_at(&req, &pointers[0]), Some(Role::User));
    adapter.add_stop_sequence(&mut req, "END");
    assert_eq!(req.raw().get("stop"), Some(&json(r#"["END"]"#)));
    assert_eq!(adapter.kind(), ProviderKind::OpenAi);
}

#[test]
fn message_pointers_are_distinct_and_in_order() {
    let messages = json(
        r#"[
            { "content": "a" },
            { "content": [
                { "type": "text", "text": "b" },
                { "type": "tool_use", "input": { "a": ["x", { "b": "y" }], "a/b": "z", "a~b": "w" } },
                { "type": "tool_result", "content": [ { "type": "text", "text": "c" } ] }
              ],
              "tool_calls": [ { "function": { "arguments": "{}" } } ] },
            { "content": "d" }
        ]"#,
    );
    messages.assure_distinct_keys();
    let mut out = Vec::new();
    message_text_pointers(&messages, &mut out);
    assert_eq!(out.len(), 9);
    let turns: Vec<usize> = out.iter().map(|p| turn_index(p).unwrap()).collect();
    assert!(turns.windows(2).all(|w| w[0] <= w[1]));
    assert_eq!((turns[0], turns[8]), (0, 2));
    for (i, p) in out.iter().enumerate() {
        assert!(!out[..i].contains(p), "{p}");
    }
}
