//! Builds a Responses request from an intercepted `/v1/messages` body.
use crate::codex::items;
use crate::codex::input;
use crate::codex::read_rewrite;
use crate::codex::read_rewrite::{ReadOffsetRewrite, RewriteView};
use crate::codex::tools;
use crate::json;
use crate::json::{Json, JsonObject, JsonView, Members};
use crate::text;
use vstd::prelude::*;

verus! {

pub const HOST: &'static str = "chatgpt.com";

pub const PATH: &'static str = "/backend-api/codex/responses";

// ---------------------------------------------------------------------------------------------
// Output controls
// ---------------------------------------------------------------------------------------------

/// The reasoning effort that a body asks for, as the backend names it.
pub open spec fn effort_view(body: JsonView) -> Option<Seq<char>> {
    match body.get2("output_config"@, "effort"@) {
        Some(JsonView::Str(e)) => if e == "max"@ || e == "xhigh"@ {
            Some("xhigh"@)
        } else if e == "low"@ || e == "medium"@ || e == "high"@ {
            Some(e)
        } else {
            None
        },
        _ => None,
    }
}

/// The reasoning effort that a body asks for, as the backend names it.
pub fn reasoning_effort(anthropic: &Json) -> (r: Option<String>)
    ensures
        match r {
            Some(s) => effort_view(anthropic@) == Some(s@),
            None => effort_view(anthropic@) is None,
        },
{
    let effort = match anthropic.get2("output_config", "effort") {
        Some(v) => match v.as_str() {
            Some(s) => s,
            None => {
                return None;
            },
        },
        None => {
            return None;
        },
    };
    if text::same(effort, "max") || text::same(effort, "xhigh") {
        Some("xhigh".to_owned())
    } else if text::same(effort, "low") || text::same(effort, "medium") || text::same(
        effort,
        "high",
    ) {
        Some(effort.to_owned())
    } else {
        None
    }
}

/// The format of the output text as the backend takes it.
pub open spec fn format_view(fmt: JsonView) -> JsonView {
    let kind = fmt.get_str("type"@);
    if kind == Some("json_schema"@) {
        JsonView::Object(
            seq![
                ("type"@, JsonView::Str("json_schema"@)),
                ("name"@, JsonView::Str(items::text_or(fmt.get_str("name"@), "response"@))),
                (
                    "schema"@,
                    match fmt.get("schema"@) {
                        Some(v) => v,
                        None => JsonView::Object(Seq::empty()),
                    },
                ),
                ("strict"@, JsonView::Bool(true)),
            ],
        )
    } else if kind == Some("json_object"@) {
        JsonView::Object(seq![("type"@, JsonView::Str("json_object"@))])
    } else {
        JsonView::Object(seq![("type"@, JsonView::Str("text"@))])
    }
}

/// The format of the output text as the backend takes it.
pub fn build_format(fmt: &Json) -> (r: Json)
    ensures
        r@ == format_view(fmt@),
{
    proof {
        items::lemma_member_names();
    }
    let mut o = JsonObject::new();
    let (schema, object) = match fmt.get_str("type") {
        Some(k) => (text::same(k, "json_schema"), text::same(k, "json_object")),
        None => (false, false),
    };
    if schema {
        o.insert("type", Json::text("json_schema"));
        o.insert("name", Json::text(items::str_or(fmt.get_str("name"), "response")));
        let shape = match fmt.get("schema") {
            Some(v) => v.clone(),
            None => Json::Object(JsonObject::new()),
        };
        o.insert("schema", shape);
        o.insert("strict", Json::Bool(true));
    } else if object {
        o.insert("type", Json::text("json_object"));
    } else {
        o.insert("type", Json::text("text"));
    }
    assert(o@ =~= format_view(fmt@)->Object_0);
    Json::Object(o)
}

// ---------------------------------------------------------------------------------------------
// The body
// ---------------------------------------------------------------------------------------------

/// The members of a request, in the order in which they are written.
#[verifier::opaque]
pub open spec fn body_keys() -> Seq<Seq<char>> {
    seq![
        "model"@,
        "instructions"@,
        "input"@,
        "tools"@,
        "tool_choice"@,
        "store"@,
        "stream"@,
        "parallel_tool_calls"@,
        "include"@,
        "reasoning"@,
        "prompt_cache_key"@,
        "text"@,
    ]
}

/// The keys of a request differ from one another.
pub proof fn lemma_body_keys()
    ensures
        body_keys().len() == 12,
        forall|i: int, j: int|
            0 <= i < j < 12 ==> #[trigger] body_keys()[i] != #[trigger] body_keys()[j],
        body_keys()[0] == "model"@,
        body_keys()[1] == "instructions"@,
        body_keys()[2] == "input"@,
        body_keys()[3] == "tools"@,
        body_keys()[4] == "tool_choice"@,
        body_keys()[5] == "store"@,
        body_keys()[6] == "stream"@,
        body_keys()[7] == "parallel_tool_calls"@,
        body_keys()[8] == "include"@,
        body_keys()[9] == "reasoning"@,
        body_keys()[10] == "prompt_cache_key"@,
        body_keys()[11] == "text"@,
        keys_below(Members::empty(), 0),
{
    reveal(body_keys);
    reveal(keys_below);
    reveal_strlit("model");
    reveal_strlit("instructions");
    reveal_strlit("input");
    reveal_strlit("tools");
    reveal_strlit("tool_choice");
    reveal_strlit("store");
    reveal_strlit("stream");
    reveal_strlit("parallel_tool_calls");
    reveal_strlit("include");
    reveal_strlit("reasoning");
    reveal_strlit("prompt_cache_key");
    reveal_strlit("text");
    assert("model"@.len() == 5);
    assert("instructions"@.len() == 12);
    assert("input"@.len() == 5);
    assert("tools"@.len() == 5);
    assert("tool_choice"@.len() == 11);
    assert("store"@.len() == 5);
    assert("stream"@.len() == 6);
    assert("parallel_tool_calls"@.len() == 19);
    assert("include"@.len() == 7);
    assert("reasoning"@.len() == 9);
    assert("prompt_cache_key"@.len() == 16);
    assert("text"@.len() == 4);
    assert("model"@[0] != "input"@[0]);
    assert("model"@[0] != "tools"@[0]);
    assert("model"@[0] != "store"@[0]);
    assert("input"@[0] != "tools"@[0]);
    assert("input"@[0] != "store"@[0]);
    assert("tools"@[0] != "store"@[0]);
}

/// Every key of `e` is one of the first `n` keys of a request.
#[verifier::opaque]
pub open spec fn keys_below(e: Members, n: int) -> bool {
    forall|i: int|
        0 <= i < e.len() ==> exists|j: int|
            0 <= j < n && (#[trigger] e[i]).0 == #[trigger] body_keys()[j]
}

/// A member whose turn comes is new.
proof fn lemma_next_key(e: Members, n: int, value: JsonView)
    requires
        0 <= n < 12,
        keys_below(e, n),
    ensures
        json::put(e, body_keys()[n], value) == e.push((body_keys()[n], value)),
        keys_below(e.push((body_keys()[n], value)), n + 1),
        keys_below(e, n + 1),
{
    lemma_body_keys();
    reveal(keys_below);
    let key = body_keys()[n];
    if json::has_key(e, key) {
        let i = choose|i: int| 0 <= i < e.len() && (#[trigger] e[i]).0 == key;
        let j = choose|j: int| 0 <= j < n && e[i].0 == #[trigger] body_keys()[j];
        assert(body_keys()[j] != body_keys()[n]);
    }
    assert forall|i: int| 0 <= i < e.len() implies exists|j: int|
        0 <= j < n + 1 && (#[trigger] e[i]).0 == #[trigger] body_keys()[j] by {
        let j = choose|j: int| 0 <= j < n && e[i].0 == #[trigger] body_keys()[j];
        assert(e[i].0 == body_keys()[j]);
    }
    let longer = e.push((key, value));
    assert forall|i: int| 0 <= i < longer.len() implies exists|j: int|
        0 <= j < n + 1 && (#[trigger] longer[i]).0 == #[trigger] body_keys()[j] by {
        if i < e.len() {
            assert(longer[i] == e[i]);
            let j = choose|j: int| 0 <= j < n && e[i].0 == #[trigger] body_keys()[j];
            assert(longer[i].0 == body_keys()[j]);
        } else {
            assert(longer[i].0 == body_keys()[n]);
        }
    }
}

/// The system text of a body, where it has any.
pub open spec fn instructions_view(body: JsonView) -> Option<JsonView> {
    match body.get("system"@) {
        Some(s) => if input::flat_text(s).len() == 0 {
            None
        } else {
            Some(JsonView::Str(input::flat_text(s)))
        },
        None => None,
    }
}

/// The `reasoning` of a request that asks for an effort.
pub open spec fn reasoning_view(effort: Seq<char>) -> JsonView {
    JsonView::Object(
        seq![("effort"@, JsonView::Str(effort)), ("summary"@, JsonView::Str("auto"@))],
    )
}

/// The `text` of a request: terse, in the format that the body asks for.
pub open spec fn text_view(body: JsonView) -> JsonView {
    JsonView::Object(
        seq![("verbosity"@, JsonView::Str("low"@))] + tools::member(
            "format"@,
            match body.get2("output_config"@, "format"@) {
                Some(f) => Some(format_view(f)),
                None => None,
            },
        ),
    )
}

/// The members of the request for a body.
pub open spec fn body_members(
    body: JsonView,
    model: Seq<char>,
    session: Option<Seq<char>>,
    rewrites: Seq<RewriteView>,
) -> Members {
    let tools = tools::tools_view(body);
    let effort = effort_view(body);
    tools::member("model"@, Some(JsonView::Str(model))) + tools::member("instructions"@, instructions_view(body))
        + tools::member("input"@, Some(JsonView::Array(input::input_view(body, rewrites)))) + tools::member(
        "tools"@,
        if tools.len() == 0 {
            None
        } else {
            Some(JsonView::Array(tools))
        },
    ) + tools::member("tool_choice"@, tools::choice_view(body)) + tools::member(
        "store"@,
        Some(JsonView::Bool(false)),
    ) + tools::member("stream"@, Some(JsonView::Bool(true))) + tools::member(
        "parallel_tool_calls"@,
        Some(JsonView::Bool(true)),
    ) + tools::member(
        "include"@,
        match effort {
            Some(_) => Some(
                JsonView::Array(seq![JsonView::Str("reasoning.encrypted_content"@)]),
            ),
            None => None,
        },
    ) + tools::member(
        "reasoning"@,
        match effort {
            Some(e) => Some(reasoning_view(e)),
            None => None,
        },
    ) + tools::member(
        "prompt_cache_key"@,
        match session {
            Some(s) => Some(JsonView::Str(s)),
            None => None,
        },
    ) + tools::member("text"@, Some(text_view(body)))
}

/// The system text of a body, where it has any.
fn instructions(anthropic: &Json) -> (r: Option<Json>)
    ensures
        match r {
            Some(j) => instructions_view(anthropic@) == Some(j@),
            None => instructions_view(anthropic@) is None,
        },
{
    match anthropic.get("system") {
        Some(s) => {
            let flat = input::flatten_text(s);
            if flat.as_str().is_empty() {
                None
            } else {
                Some(Json::Str(flat))
            }
        },
        None => None,
    }
}

/// The `include` and `reasoning` of a request that asks for an effort.
fn reasoning(effort: &str) -> (r: (Json, Json))
    ensures
        r.0@ == JsonView::Array(seq![JsonView::Str("reasoning.encrypted_content"@)]),
        r.1@ == reasoning_view(effort@),
{
    let mut wanted: Vec<Json> = Vec::new();
    assert(json::jsons(wanted@) =~= Seq::<JsonView>::empty());
    items::add_item(&mut wanted, Json::text("reasoning.encrypted_content"));
    assert(json::jsons(wanted@) =~= seq![JsonView::Str("reasoning.encrypted_content"@)]);
    let mut o = JsonObject::new();
    proof {
        json::lemma_array_view(wanted);
        items::lemma_member_names();
    }
    o.insert("effort", Json::text(effort));
    o.insert("summary", Json::text("auto"));
    assert(o@ =~= reasoning_view(effort@)->Object_0);
    (Json::Array(wanted), Json::Object(o))
}

/// The `text` of a request.
fn text_control(anthropic: &Json) -> (r: Json)
    ensures
        r@ == text_view(anthropic@),
{
    proof {
        items::lemma_member_names();
    }
    let mut o = JsonObject::new();
    o.insert("verbosity", Json::text("low"));
    match anthropic.get2("output_config", "format") {
        Some(f) => {
            o.insert("format", build_format(f));
        },
        None => {},
    }
    assert(o@ =~= text_view(anthropic@)->Object_0);
    Json::Object(o)
}

/// Writes the next member of a request, where it has a value.
fn next_member(o: &mut JsonObject, key: &str, value: Option<Json>, Ghost(n): Ghost<int>)
    requires
        0 <= n < 12,
        key@ == body_keys()[n],
        keys_below(old(o)@, n),
    ensures
        final(o)@ == old(o)@ + tools::member(
            key@,
            match value {
                Some(v) => Some(v@),
                None => None,
            },
        ),
        keys_below(final(o)@, n + 1),
{
    match value {
        Some(v) => {
            proof {
                lemma_next_key(o@, n, v@);
            }
            o.insert(key, v);
            assert(o@ =~= old(o)@ + tools::member(key@, Some(v@)));
        },
        None => {
            proof {
                lemma_next_key(o@, n, JsonView::Null);
            }
            assert(o@ =~= old(o)@ + tools::member(key@, None));
        },
    }
}

/// Builds the request body for an intercepted `/v1/messages` body.
///
/// `model` is the upstream's own name of the model. `session_id` becomes the key under which the
/// upstream caches the prompt. `rewrites` are the tool calls that were repaired earlier in the
/// conversation. What the backend does not take (`max_tokens`, sampling controls) is left out.
pub fn build_request_body(
    anthropic: &Json,
    model: &str,
    session_id: Option<&str>,
    rewrites: &[ReadOffsetRewrite],
) -> (r: Json)
    ensures
        r@ == JsonView::Object(
            body_members(
                anthropic@,
                model@,
                match session_id {
                    Some(s) => Some(s@),
                    None => None,
                },
                read_rewrite::rewrites_view(rewrites@),
            ),
        ),
{
    let mut body = JsonObject::new();
    proof {
        lemma_body_keys();
    }
    next_member(&mut body, "model", Some(Json::text(model)), Ghost(0));
    next_member(&mut body, "instructions", instructions(anthropic), Ghost(1));
    let input = input::build_input(anthropic, rewrites);
    proof {
        json::lemma_array_view(input);
    }
    next_member(&mut body, "input", Some(Json::Array(input)), Ghost(2));
    let tools = tools::build_tools(anthropic);
    proof {
        json::lemma_array_view(tools);
    }
    next_member(
        &mut body,
        "tools",
        if tools.len() == 0 {
            None
        } else {
            Some(Json::Array(tools))
        },
        Ghost(3),
    );
    next_member(
        &mut body,
        "tool_choice",
        tools::chosen_tool(anthropic),
        Ghost(4),
    );
    next_member(&mut body, "store", Some(Json::Bool(false)), Ghost(5));
    next_member(&mut body, "stream", Some(Json::Bool(true)), Ghost(6));
    next_member(&mut body, "parallel_tool_calls", Some(Json::Bool(true)), Ghost(7));
    let (wanted, effort) = match reasoning_effort(anthropic) {
        Some(e) => {
            let (i, r) = reasoning(e.as_str());
            (Some(i), Some(r))
        },
        None => (None, None),
    };
    next_member(&mut body, "include", wanted, Ghost(8));
    next_member(&mut body, "reasoning", effort, Ghost(9));
    next_member(
        &mut body,
        "prompt_cache_key",
        match session_id {
            Some(s) => Some(Json::text(s)),
            None => None,
        },
        Ghost(10),
    );
    next_member(&mut body, "text", Some(text_control(anthropic)), Ghost(11));
    assert(Members::empty() + tools::member("model"@, Some(JsonView::Str(model@))) =~= tools::member(
        "model"@,
        Some(JsonView::Str(model@)),
    ));
    Json::Object(body)
}

// ---------------------------------------------------------------------------------------------
// What holds of every request
// ---------------------------------------------------------------------------------------------

proof fn lemma_member_below(e: Members, n: int, value: Option<JsonView>)
    requires
        0 <= n < 12,
        keys_below(e, n),
    ensures
        keys_below(e + tools::member(body_keys()[n], value), n + 1),
{
    match value {
        Some(v) => {
            lemma_next_key(e, n, v);
            assert(e + tools::member(body_keys()[n], value) =~= e.push((body_keys()[n], v)));
        },
        None => {
            lemma_next_key(e, n, JsonView::Null);
            assert(e + tools::member(body_keys()[n], value) =~= e);
        },
    }
}

/// A request holds no member but those of [`body_keys`]: whatever else the intercepted body asks for
/// is left out.
pub proof fn law_body_has_no_other_member(
    body: JsonView,
    model: Seq<char>,
    session: Option<Seq<char>>,
    rewrites: Seq<RewriteView>,
)
    ensures
        keys_below(body_members(body, model, session, rewrites), 12),
{
    lemma_body_keys();
    let tools = tools::tools_view(body);
    let effort = effort_view(body);
    let e0 = Members::empty();
    let m0 = tools::member("model"@, Some(JsonView::Str(model)));
    lemma_member_below(e0, 0, Some(JsonView::Str(model)));
    assert(e0 + m0 =~= m0);
    let v1 = instructions_view(body);
    lemma_member_below(m0, 1, v1);
    let e2 = m0 + tools::member("instructions"@, v1);
    let v2 = Some(JsonView::Array(input::input_view(body, rewrites)));
    lemma_member_below(e2, 2, v2);
    let e3 = e2 + tools::member("input"@, v2);
    let v3 = if tools.len() == 0 {
        None
    } else {
        Some(JsonView::Array(tools))
    };
    lemma_member_below(e3, 3, v3);
    let e4 = e3 + tools::member("tools"@, v3);
    let v4 = tools::choice_view(body);
    lemma_member_below(e4, 4, v4);
    let e5 = e4 + tools::member("tool_choice"@, v4);
    lemma_member_below(e5, 5, Some(JsonView::Bool(false)));
    let e6 = e5 + tools::member("store"@, Some(JsonView::Bool(false)));
    lemma_member_below(e6, 6, Some(JsonView::Bool(true)));
    let e7 = e6 + tools::member("stream"@, Some(JsonView::Bool(true)));
    lemma_member_below(e7, 7, Some(JsonView::Bool(true)));
    let e8 = e7 + tools::member("parallel_tool_calls"@, Some(JsonView::Bool(true)));
    let v8 = match effort {
        Some(_) => Some(JsonView::Array(seq![JsonView::Str("reasoning.encrypted_content"@)])),
        None => None,
    };
    lemma_member_below(e8, 8, v8);
    let e9 = e8 + tools::member("include"@, v8);
    let v9 = match effort {
        Some(e) => Some(reasoning_view(e)),
        None => None,
    };
    lemma_member_below(e9, 9, v9);
    let e10 = e9 + tools::member("reasoning"@, v9);
    let v10 = match session {
        Some(s) => Some(JsonView::Str(s)),
        None => None,
    };
    lemma_member_below(e10, 10, v10);
    let e11 = e10 + tools::member("prompt_cache_key"@, v10);
    lemma_member_below(e11, 11, Some(text_view(body)));
}

proof fn lemma_has_key_add(a: Members, b: Members, key: Seq<char>)
    ensures
        json::has_key(a + b, key) == (json::has_key(a, key) || json::has_key(b, key)),
{
    let c = a + b;
    if json::has_key(a, key) {
        let i = choose|i: int| 0 <= i < a.len() && (#[trigger] a[i]).0 == key;
        assert(c[i].0 == key);
    }
    if json::has_key(b, key) {
        let i = choose|i: int| 0 <= i < b.len() && (#[trigger] b[i]).0 == key;
        assert(c[a.len() + i].0 == key);
    }
    if json::has_key(c, key) {
        let i = choose|i: int| 0 <= i < c.len() && (#[trigger] c[i]).0 == key;
        if i < a.len() {
            assert(a[i].0 == key);
        } else {
            assert(b[i - a.len()].0 == key);
        }
    }
}

proof fn lemma_has_key_member(name: Seq<char>, value: Option<JsonView>, key: Seq<char>)
    ensures
        json::has_key(tools::member(name, value), key) == (value is Some && name == key),
{
    if value is Some && name == key {
        assert(tools::member(name, value)[0].0 == key);
    }
}

/// A member of a request is there exactly where it has a value.
proof fn lemma_body_has_key(
    body: JsonView,
    model: Seq<char>,
    session: Option<Seq<char>>,
    rewrites: Seq<RewriteView>,
    key: Seq<char>,
)
    ensures
        json::has_key(body_members(body, model, session, rewrites), key) == {
            ||| key == "model"@
            ||| key == "instructions"@ && instructions_view(body) is Some
            ||| key == "input"@
            ||| key == "tools"@ && tools::tools_view(body).len() > 0
            ||| key == "tool_choice"@ && tools::choice_view(body) is Some
            ||| key == "store"@
            ||| key == "stream"@
            ||| key == "parallel_tool_calls"@
            ||| key == "include"@ && effort_view(body) is Some
            ||| key == "reasoning"@ && effort_view(body) is Some
            ||| key == "prompt_cache_key"@ && session is Some
            ||| key == "text"@
        },
{
    let tools = tools::tools_view(body);
    let effort = effort_view(body);
    let v0 = Some(JsonView::Str(model));
    let v1 = instructions_view(body);
    let v2 = Some(JsonView::Array(input::input_view(body, rewrites)));
    let v3 = if tools.len() == 0 {
        None
    } else {
        Some(JsonView::Array(tools))
    };
    let v4 = tools::choice_view(body);
    let off = Some(JsonView::Bool(false));
    let on = Some(JsonView::Bool(true));
    let v8 = match effort {
        Some(_) => Some(JsonView::Array(seq![JsonView::Str("reasoning.encrypted_content"@)])),
        None => None,
    };
    let v9 = match effort {
        Some(e) => Some(reasoning_view(e)),
        None => None,
    };
    let v10 = match session {
        Some(s) => Some(JsonView::Str(s)),
        None => None,
    };
    let v11 = Some(text_view(body));
    lemma_has_key_member("model"@, v0, key);
    lemma_has_key_member("instructions"@, v1, key);
    lemma_has_key_member("input"@, v2, key);
    lemma_has_key_member("tools"@, v3, key);
    lemma_has_key_member("tool_choice"@, v4, key);
    lemma_has_key_member("store"@, off, key);
    lemma_has_key_member("stream"@, on, key);
    lemma_has_key_member("parallel_tool_calls"@, on, key);
    lemma_has_key_member("include"@, v8, key);
    lemma_has_key_member("reasoning"@, v9, key);
    lemma_has_key_member("prompt_cache_key"@, v10, key);
    lemma_has_key_member("text"@, v11, key);
    let e1 = tools::member("model"@, v0);
    lemma_has_key_add(e1, tools::member("instructions"@, v1), key);
    let e2 = e1 + tools::member("instructions"@, v1);
    lemma_has_key_add(e2, tools::member("input"@, v2), key);
    let e3 = e2 + tools::member("input"@, v2);
    lemma_has_key_add(e3, tools::member("tools"@, v3), key);
    let e4 = e3 + tools::member("tools"@, v3);
    lemma_has_key_add(e4, tools::member("tool_choice"@, v4), key);
    let e5 = e4 + tools::member("tool_choice"@, v4);
    lemma_has_key_add(e5, tools::member("store"@, off), key);
    let e6 = e5 + tools::member("store"@, off);
    lemma_has_key_add(e6, tools::member("stream"@, on), key);
    let e7 = e6 + tools::member("stream"@, on);
    lemma_has_key_add(e7, tools::member("parallel_tool_calls"@, on), key);
    let e8 = e7 + tools::member("parallel_tool_calls"@, on);
    lemma_has_key_add(e8, tools::member("include"@, v8), key);
    let e9 = e8 + tools::member("include"@, v8);
    lemma_has_key_add(e9, tools::member("reasoning"@, v9), key);
    let e10 = e9 + tools::member("reasoning"@, v9);
    lemma_has_key_add(e10, tools::member("prompt_cache_key"@, v10), key);
    let e11 = e10 + tools::member("prompt_cache_key"@, v10);
    lemma_has_key_add(e11, tools::member("text"@, v11), key);
}

/// The reasoning and the request for its encrypted content go together: both are there where the body
/// asks for an effort that the backend knows, and neither is there where it does not.
pub proof fn law_reasoning_and_its_content_go_together(
    body: JsonView,
    model: Seq<char>,
    session: Option<Seq<char>>,
    rewrites: Seq<RewriteView>,
)
    ensures
        ({
            let e = body_members(body, model, session, rewrites);
            &&& json::has_key(e, "reasoning"@) == (effort_view(body) is Some)
            &&& json::has_key(e, "include"@) == (effort_view(body) is Some)
        }),
{
    lemma_body_keys();
    lemma_body_has_key(body, model, session, rewrites, "reasoning"@);
    lemma_body_has_key(body, model, session, rewrites, "include"@);
    assert forall|i: int, j: int| 0 <= i < 12 && 0 <= j < 12 && i != j implies
        #[trigger] body_keys()[i] != #[trigger] body_keys()[j] by {
        if i > j {
            assert(body_keys()[j] != body_keys()[i]);
        }
    }
    assert(body_keys()[8] == "include"@ && body_keys()[9] == "reasoning"@);
    assert(body_keys()[0] == "model"@ && body_keys()[1] == "instructions"@ && body_keys()[2]
        == "input"@ && body_keys()[3] == "tools"@ && body_keys()[4] == "tool_choice"@
        && body_keys()[5] == "store"@ && body_keys()[6] == "stream"@ && body_keys()[7]
        == "parallel_tool_calls"@ && body_keys()[10] == "prompt_cache_key"@ && body_keys()[11]
        == "text"@);
}

/// No request forces the hosted web search: where the body chooses a tool that is the hosted web
/// search, by the tool's own name or by the name that the body declares for it, the request has no
/// choice of tool.
pub proof fn law_web_search_is_not_forced(
    body: JsonView,
    model: Seq<char>,
    session: Option<Seq<char>>,
    rewrites: Seq<RewriteView>,
    name: Seq<char>,
)
    requires
        body.get("tool_choice"@) matches Some(tc) && tc.get_str("type"@) == Some("tool"@)
            && tc.get_str("name"@) == Some(name),
        name == tools::WEB_SEARCH_TOOL@ || (body.get_array("tools"@) matches Some(ts)
            && tools::names_web_search(ts, name)),
    ensures
        !json::has_key(body_members(body, model, session, rewrites), "tool_choice"@),
{
    reveal_strlit("none");
    reveal_strlit("any");
    reveal_strlit("required");
    reveal_strlit("tool");
    assert("tool"@.len() == 4 && "none"@.len() == 4 && "any"@.len() == 3 && "required"@.len() == 8);
    assert("tool"@[0] == 't' && "none"@[0] == 'n');
    assert(tools::choice_view(body) is None);
    lemma_body_keys();
    lemma_body_has_key(body, model, session, rewrites, "tool_choice"@);
    assert forall|i: int| 0 <= i < 12 && i != 4 implies #[trigger] body_keys()[i]
        != body_keys()[4] by {
        if i < 4 {
            assert(body_keys()[i] != body_keys()[4]);
        } else {
            assert(body_keys()[4] != body_keys()[i]);
        }
    }
    assert(body_keys()[0] == "model"@ && body_keys()[1] == "instructions"@ && body_keys()[2]
        == "input"@ && body_keys()[3] == "tools"@ && body_keys()[4] == "tool_choice"@
        && body_keys()[5] == "store"@ && body_keys()[6] == "stream"@ && body_keys()[7]
        == "parallel_tool_calls"@ && body_keys()[8] == "include"@ && body_keys()[9]
        == "reasoning"@ && body_keys()[10] == "prompt_cache_key"@ && body_keys()[11] == "text"@);
}

} // verus!
