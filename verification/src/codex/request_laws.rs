//! What a request says of each thing that the body asks for.
use crate::codex::headers;
use crate::codex::headers::HeaderList;
use crate::codex::input;
use crate::codex::items;
use crate::codex::read_rewrite::RewriteView;
use crate::codex::request;
use crate::codex::tools;
use crate::json;
use crate::json::{JsonView, Members};
use vstd::prelude::*;

verus! {

// ---------------------------------------------------------------------------------------------
// Looking members up
// ---------------------------------------------------------------------------------------------

proof fn lemma_lookup_add(a: Members, b: Members, key: Seq<char>)
    ensures
        json::lookup(a + b, key) == match json::lookup(b, key) {
            Some(v) => Some(v),
            None => json::lookup(a, key),
        },
    decreases b.len(),
{
    if b.len() == 0 {
        assert(a + b =~= a);
    } else {
        lemma_lookup_add(a, b.drop_last(), key);
        assert((a + b).drop_last() =~= a + b.drop_last());
        assert((a + b).last() == b.last());
    }
}

proof fn lemma_lookup_one(name: Seq<char>, value: JsonView, key: Seq<char>)
    ensures
        json::lookup(seq![(name, value)], key) == if name == key {
            Some(value)
        } else {
            None
        },
        json::lookup(Members::empty(), key) is None,
{
    assert(seq![(name, value)].drop_last() =~= Members::empty());
}

proof fn lemma_lookup_member(e: Members, name: Seq<char>, value: Option<JsonView>, key: Seq<char>)
    ensures
        json::lookup(e + tools::member(name, value), key) == if name == key && value is Some {
            value
        } else {
            json::lookup(e, key)
        },
{
    lemma_lookup_add(e, tools::member(name, value), key);
    match value {
        Some(v) => {
            lemma_lookup_one(name, v, key);
        },
        None => {
            lemma_lookup_one(name, JsonView::Null, key);
        },
    }
}

/// The request for a body.
pub open spec fn sent(
    body: JsonView,
    model: Seq<char>,
    session: Option<Seq<char>>,
    rewrites: Seq<RewriteView>,
) -> JsonView {
    JsonView::Object(request::body_members(body, model, session, rewrites))
}

proof fn lemma_request_keys()
    ensures
        forall|i: int, j: int|
            0 <= i < 12 && 0 <= j < 12 && i != j ==> #[trigger] request::body_keys()[i]
                != #[trigger] request::body_keys()[j],
        request::body_keys()[0] == "model"@,
        request::body_keys()[1] == "instructions"@,
        request::body_keys()[2] == "input"@,
        request::body_keys()[3] == "tools"@,
        request::body_keys()[4] == "tool_choice"@,
        request::body_keys()[5] == "store"@,
        request::body_keys()[6] == "stream"@,
        request::body_keys()[7] == "parallel_tool_calls"@,
        request::body_keys()[8] == "include"@,
        request::body_keys()[9] == "reasoning"@,
        request::body_keys()[10] == "prompt_cache_key"@,
        request::body_keys()[11] == "text"@,
{
    request::lemma_body_keys();
    assert forall|i: int, j: int| 0 <= i < 12 && 0 <= j < 12 && i != j implies
        #[trigger] request::body_keys()[i] != #[trigger] request::body_keys()[j] by {
        if i > j {
            assert(request::body_keys()[j] != request::body_keys()[i]);
        }
    }
}

/// What stands under the key with number `k`.
proof fn lemma_sent(
    body: JsonView,
    model: Seq<char>,
    session: Option<Seq<char>>,
    rewrites: Seq<RewriteView>,
    k: int,
)
    requires
        0 <= k < 12,
    ensures
        ({
            let v = json::lookup(
                request::body_members(body, model, session, rewrites),
                request::body_keys()[k],
            );
            let tools = tools::tools_view(body);
            let effort = request::effort_view(body);
            &&& k == 0 ==> v == Some(JsonView::Str(model))
            &&& k == 1 ==> v == request::instructions_view(body)
            &&& k == 2 ==> v == Some(JsonView::Array(input::input_view(body, rewrites)))
            &&& k == 3 ==> v == if tools.len() == 0 {
                None
            } else {
                Some(JsonView::Array(tools))
            }
            &&& k == 4 ==> v == tools::choice_view(body)
            &&& k == 5 ==> v == Some(JsonView::Bool(false))
            &&& k == 6 || k == 7 ==> v == Some(JsonView::Bool(true))
            &&& k == 8 ==> v == match effort {
                Some(_) => Some(
                    JsonView::Array(seq![JsonView::Str("reasoning.encrypted_content"@)]),
                ),
                None => None,
            }
            &&& k == 9 ==> v == match effort {
                Some(e) => Some(request::reasoning_view(e)),
                None => None,
            }
            &&& k == 10 ==> v == match session {
                Some(s) => Some(JsonView::Str(s)),
                None => None,
            }
            &&& k == 11 ==> v == Some(request::text_view(body))
        }),
{
    lemma_request_keys();
    let key = request::body_keys()[k];
    let tools = tools::tools_view(body);
    let effort = request::effort_view(body);
    let v0 = Some(JsonView::Str(model));
    let v1 = request::instructions_view(body);
    let v2 = Some(JsonView::Array(input::input_view(body, rewrites)));
    let v3 = if tools.len() == 0 {
        None
    } else {
        Some(JsonView::Array(tools))
    };
    let v4 = tools::choice_view(body);
    let off = Some(JsonView::Bool(false));
    let on = Some(JsonView::Bool(true));
    let v8 = match effort {
        Some(_) => Some(JsonView::Array(seq![JsonView::Str("reasoning.encrypted_content"@)])),
        None => None,
    };
    let v9 = match effort {
        Some(e) => Some(request::reasoning_view(e)),
        None => None,
    };
    let v10 = match session {
        Some(s) => Some(JsonView::Str(s)),
        None => None,
    };
    let v11 = Some(request::text_view(body));
    let e0 = Members::empty();
    let e1 = tools::member("model"@, v0);
    assert(e0 + e1 =~= e1);
    lemma_lookup_one("model"@, JsonView::Str(model), key);
    lemma_lookup_member(e0, "model"@, v0, key);
    lemma_lookup_member(e1, "instructions"@, v1, key);
    let e2 = e1 + tools::member("instructions"@, v1);
    lemma_lookup_member(e2, "input"@, v2, key);
    let e3 = e2 + tools::member("input"@, v2);
    lemma_lookup_member(e3, "tools"@, v3, key);
    let e4 = e3 + tools::member("tools"@, v3);
    lemma_lookup_member(e4, "tool_choice"@, v4, key);
    let e5 = e4 + tools::member("tool_choice"@, v4);
    lemma_lookup_member(e5, "store"@, off, key);
    let e6 = e5 + tools::member("store"@, off);
    lemma_lookup_member(e6, "stream"@, on, key);
    let e7 = e6 + tools::member("stream"@, on);
    lemma_lookup_member(e7, "parallel_tool_calls"@, on, key);
    let e8 = e7 + tools::member("parallel_tool_calls"@, on);
    lemma_lookup_member(e8, "include"@, v8, key);
    let e9 = e8 + tools::member("include"@, v8);
    lemma_lookup_member(e9, "reasoning"@, v9, key);
    let e10 = e9 + tools::member("reasoning"@, v9);
    lemma_lookup_member(e10, "prompt_cache_key"@, v10, key);
    let e11 = e10 + tools::member("prompt_cache_key"@, v10);
    lemma_lookup_member(e11, "text"@, v11, key);
    assert(request::body_keys()[0] == "model"@ && request::body_keys()[1] == "instructions"@
        && request::body_keys()[2] == "input"@ && request::body_keys()[3] == "tools"@
        && request::body_keys()[4] == "tool_choice"@ && request::body_keys()[5] == "store"@
        && request::body_keys()[6] == "stream"@ && request::body_keys()[7]
        == "parallel_tool_calls"@ && request::body_keys()[8] == "include"@
        && request::body_keys()[9] == "reasoning"@ && request::body_keys()[10]
        == "prompt_cache_key"@ && request::body_keys()[11] == "text"@);
}

// ---------------------------------------------------------------------------------------------
// The request
// ---------------------------------------------------------------------------------------------

/// Every request names the model that it is for, has the items of the conversation, is streamed, may
/// call tools in parallel, and is not stored; it is cached under the session where there is one.
pub proof fn law_every_request_is_streamed_and_not_stored(
    body: JsonView,
    model: Seq<char>,
    session: Option<Seq<char>>,
    rewrites: Seq<RewriteView>,
)
    ensures
        ({
            let r = sent(body, model, session, rewrites);
            &&& r.get("model"@) == Some(JsonView::Str(model))
            &&& r.get("input"@) == Some(JsonView::Array(input::input_view(body, rewrites)))
            &&& r.get("store"@) == Some(JsonView::Bool(false))
            &&& r.get("stream"@) == Some(JsonView::Bool(true))
            &&& r.get("parallel_tool_calls"@) == Some(JsonView::Bool(true))
            &&& session is Some ==> r.get("prompt_cache_key"@) == Some(JsonView::Str(session->0))
            &&& session is None ==> r.get("prompt_cache_key"@) is None
        }),
{
    lemma_request_keys();
    lemma_sent(body, model, session, rewrites, 0);
    lemma_sent(body, model, session, rewrites, 2);
    lemma_sent(body, model, session, rewrites, 5);
    lemma_sent(body, model, session, rewrites, 6);
    lemma_sent(body, model, session, rewrites, 7);
    lemma_sent(body, model, session, rewrites, 10);
}

/// The instructions of a request are the system text of the body, and are left out where it has none.
pub proof fn law_the_system_text_is_the_instructions(
    body: JsonView,
    model: Seq<char>,
    session: Option<Seq<char>>,
    rewrites: Seq<RewriteView>,
)
    ensures
        ({
            let r = sent(body, model, session, rewrites);
            &&& body.get("system"@) is None ==> r.get("instructions"@) is None
            &&& body.get("system"@) is Some ==> {
                let said = input::flat_text(body.get("system"@)->0);
                &&& said.len() == 0 ==> r.get("instructions"@) is None
                &&& said.len() > 0 ==> r.get("instructions"@) == Some(JsonView::Str(said))
            }
        }),
{
    lemma_request_keys();
    lemma_sent(body, model, session, rewrites, 1);
}

/// The effort that a body asks for is the effort of the request, the highest under the backend's own
/// name; with it go a summary and the encrypted reasoning. Where the body asks for none, or for one
/// that is not known, the request has nothing of these.
pub proof fn law_the_effort_is_handed_on(
    body: JsonView,
    model: Seq<char>,
    session: Option<Seq<char>>,
    rewrites: Seq<RewriteView>,
    asked: Seq<char>,
)
    requires
        body.get2("output_config"@, "effort"@) == Some(JsonView::Str(asked)),
    ensures
        ({
            let r = sent(body, model, session, rewrites);
            let effort = r.get2("reasoning"@, "effort"@);
            let same = asked == "low"@ || asked == "medium"@ || asked == "high"@;
            let most = asked == "max"@ || asked == "xhigh"@;
            &&& same ==> effort == Some(JsonView::Str(asked))
            &&& most ==> effort == Some(JsonView::Str("xhigh"@))
            &&& same || most ==> r.get2("reasoning"@, "summary"@) == Some(JsonView::Str("auto"@))
                && r.get("include"@) == Some(
                JsonView::Array(seq![JsonView::Str("reasoning.encrypted_content"@)]),
            )
            &&& !same && !most ==> r.get("reasoning"@) is None && r.get("include"@) is None
        }),
{
    lemma_request_keys();
    lemma_efforts();
    lemma_sent(body, model, session, rewrites, 8);
    lemma_sent(body, model, session, rewrites, 9);
    match request::effort_view(body) {
        Some(e) => {
            lemma_reasoning(e);
        },
        None => {},
    }
}

proof fn lemma_efforts()
    ensures
        "low"@ != "max"@,
        "low"@ != "xhigh"@,
        "medium"@ != "max"@,
        "medium"@ != "xhigh"@,
        "high"@ != "max"@,
        "high"@ != "xhigh"@,
{
    reveal_strlit("low");
    reveal_strlit("medium");
    reveal_strlit("high");
    reveal_strlit("max");
    reveal_strlit("xhigh");
    assert("low"@.len() == 3 && "medium"@.len() == 6 && "high"@.len() == 4 && "max"@.len() == 3
        && "xhigh"@.len() == 5);
    assert("low"@[0] == 'l' && "max"@[0] == 'm');
}

proof fn lemma_reasoning(effort: Seq<char>)
    ensures
        request::reasoning_view(effort).get("effort"@) == Some(JsonView::Str(effort)),
        request::reasoning_view(effort).get("summary"@) == Some(JsonView::Str("auto"@)),
{
    items::lemma_member_names();
    let m = request::reasoning_view(effort)->Object_0;
    reveal_with_fuel(json::lookup, 3);
    assert(m.last().0 == "summary"@);
    assert(m.drop_last().last().0 == "effort"@);
}

/// A body that asks for no effort, or not by a word, gets a request without reasoning.
pub proof fn law_no_effort_no_reasoning(
    body: JsonView,
    model: Seq<char>,
    session: Option<Seq<char>>,
    rewrites: Seq<RewriteView>,
)
    requires
        !(body.get2("output_config"@, "effort"@) matches Some(JsonView::Str(_))),
    ensures
        sent(body, model, session, rewrites).get("reasoning"@) is None,
        sent(body, model, session, rewrites).get("include"@) is None,
{
    lemma_request_keys();
    lemma_sent(body, model, session, rewrites, 8);
    lemma_sent(body, model, session, rewrites, 9);
}

/// Every request asks for terse text. It has a format where the body has one: a schema is handed on
/// under its name and is strict, an object is an object, and anything else is text.
pub proof fn law_the_format_is_handed_on(
    body: JsonView,
    model: Seq<char>,
    session: Option<Seq<char>>,
    rewrites: Seq<RewriteView>,
)
    ensures
        ({
            let r = sent(body, model, session, rewrites);
            let given = r.get2("text"@, "format"@);
            &&& r.get2("text"@, "verbosity"@) == Some(JsonView::Str("low"@))
            &&& body.get2("output_config"@, "format"@) is None ==> given is None
            &&& body.get2("output_config"@, "format"@) matches Some(f) ==> {
                let kind = f.get_str("type"@);
                &&& given is Some
                &&& kind == Some("json_schema"@) ==> {
                    &&& given->0.get("type"@) == Some(JsonView::Str("json_schema"@))
                    &&& given->0.get("strict"@) == Some(JsonView::Bool(true))
                    &&& f.get("schema"@) is Some ==> given->0.get("schema"@) == f.get("schema"@)
                    &&& f.get("schema"@) is None ==> given->0.get("schema"@) == Some(
                        JsonView::Object(Seq::empty()),
                    )
                    &&& f.get_str("name"@) is Some ==> given->0.get("name"@) == Some(
                        JsonView::Str(f.get_str("name"@)->0),
                    )
                    &&& f.get_str("name"@) is None ==> given->0.get("name"@) == Some(
                        JsonView::Str("response"@),
                    )
                }
                &&& kind == Some("json_object"@) ==> given->0.get("type"@) == Some(
                    JsonView::Str("json_object"@),
                )
                &&& kind != Some("json_schema"@) && kind != Some("json_object"@)
                    ==> given->0.get("type"@) == Some(JsonView::Str("text"@))
            }
        }),
{
    lemma_request_keys();
    lemma_sent(body, model, session, rewrites, 11);
    items::lemma_member_names();
    let format = match body.get2("output_config"@, "format"@) {
        Some(f) => Some(request::format_view(f)),
        None => None,
    };
    let terse = seq![("verbosity"@, JsonView::Str("low"@))];
    lemma_lookup_one("verbosity"@, JsonView::Str("low"@), "verbosity"@);
    lemma_lookup_one("verbosity"@, JsonView::Str("low"@), "format"@);
    lemma_lookup_member(terse, "format"@, format, "verbosity"@);
    lemma_lookup_member(terse, "format"@, format, "format"@);
    match body.get2("output_config"@, "format"@) {
        Some(f) => {
            lemma_format(f);
        },
        None => {},
    }
}

proof fn lemma_format(f: JsonView)
    ensures
        ({
            let given = request::format_view(f);
            let kind = f.get_str("type"@);
            &&& kind == Some("json_schema"@) ==> {
                &&& given.get("type"@) == Some(JsonView::Str("json_schema"@))
                &&& given.get("strict"@) == Some(JsonView::Bool(true))
                &&& f.get("schema"@) is Some ==> given.get("schema"@) == f.get("schema"@)
                &&& f.get("schema"@) is None ==> given.get("schema"@) == Some(
                    JsonView::Object(Seq::empty()),
                )
                &&& f.get_str("name"@) is Some ==> given.get("name"@) == Some(
                    JsonView::Str(f.get_str("name"@)->0),
                )
                &&& f.get_str("name"@) is None ==> given.get("name"@) == Some(
                    JsonView::Str("response"@),
                )
            }
            &&& kind == Some("json_object"@) ==> given.get("type"@) == Some(
                JsonView::Str("json_object"@),
            )
            &&& kind != Some("json_schema"@) && kind != Some("json_object"@) ==> given.get(
                "type"@,
            ) == Some(JsonView::Str("text"@))
        }),
{
    items::lemma_member_names();
    reveal_strlit("json_schema");
    reveal_strlit("json_object");
    assert("json_schema"@[5] == 's' && "json_object"@[5] == 'o');
    let m = request::format_view(f)->Object_0;
    reveal_with_fuel(json::lookup, 5);
    if f.get_str("type"@) == Some("json_schema"@) {
        assert(m.last().0 == "strict"@);
        assert(m.drop_last().last().0 == "schema"@);
        assert(m.drop_last().drop_last().last().0 == "name"@);
        assert(m.drop_last().drop_last().drop_last().last().0 == "type"@);
    } else {
        assert(m.last().0 == "type"@);
    }
}

// ---------------------------------------------------------------------------------------------
// Tools
// ---------------------------------------------------------------------------------------------

/// A tool is the hosted web search by its name or by its type.
pub open spec fn hosted_search(tool: JsonView) -> bool {
    tool.get_str("name"@) == Some("web_search_20250305"@) || tool.get_str("type"@) == Some(
        "web_search_20250305"@,
    )
}

/// The tools of a request are those of the body, one for one and in their order; a body without tools
/// gets a request without them.
pub proof fn law_tools_go_over_one_for_one(
    body: JsonView,
    model: Seq<char>,
    session: Option<Seq<char>>,
    rewrites: Seq<RewriteView>,
    i: int,
)
    ensures
        ({
            let r = sent(body, model, session, rewrites);
            match body.get_array("tools"@) {
                None => r.get("tools"@) is None,
                Some(ts) => {
                    &&& ts.len() == 0 ==> r.get("tools"@) is None
                    &&& ts.len() > 0 ==> r.get_array("tools"@) is Some && r.get_array(
                        "tools"@,
                    )->0.len() == ts.len() && (0 <= i < ts.len() ==> r.get_array("tools"@)->0[i]
                        == tools::tool_view(ts[i]))
                },
            }
        }),
{
    lemma_request_keys();
    lemma_sent(body, model, session, rewrites, 3);
}

/// A tool that is not the hosted web search is a function with the tool's name, its description where
/// it has one, and the schema of its input.
pub proof fn law_functions_keep_name_and_schema(tool: JsonView)
    requires
        !hosted_search(tool),
    ensures
        ({
            let r = tools::tool_view(tool);
            &&& r.get("type"@) == Some(JsonView::Str("function"@))
            &&& tool.get_str("name"@) is Some ==> r.get("name"@) == Some(
                JsonView::Str(tool.get_str("name"@)->0),
            )
            &&& tool.get_str("name"@) is None ==> r.get("name"@) == Some(
                JsonView::Str(Seq::empty()),
            )
            &&& tool.get_str("description"@) is Some ==> r.get("description"@) == Some(
                JsonView::Str(tool.get_str("description"@)->0),
            )
            &&& tool.get_str("description"@) is None ==> r.get("description"@) is None
            &&& tool.get("input_schema"@) is Some ==> r.get("parameters"@) == tool.get(
                "input_schema"@,
            )
            &&& tool.get("input_schema"@) is None ==> r.get("parameters"@) == Some(
                JsonView::Object(Seq::empty()),
            )
        }),
{
    items::lemma_member_names();
    let named = seq![
        ("type"@, JsonView::Str("function"@)),
        ("name"@, JsonView::Str(items::text_or(tool.get_str("name"@), Seq::empty()))),
    ];
    let described = match tool.get_str("description"@) {
        Some(d) => Some(JsonView::Str(d)),
        None => None,
    };
    let schema = match tool.get("input_schema"@) {
        Some(v) => v,
        None => JsonView::Object(Seq::empty()),
    };
    lemma_function_lookup(named, described, schema, "type"@);
    lemma_function_lookup(named, described, schema, "name"@);
    lemma_function_lookup(named, described, schema, "description"@);
    lemma_function_lookup(named, described, schema, "parameters"@);
    reveal_with_fuel(json::lookup, 3);
    assert(named.last().0 == "name"@);
    assert(named.drop_last().last().0 == "type"@);
}

proof fn lemma_function_lookup(
    named: Members,
    described: Option<JsonView>,
    schema: JsonView,
    key: Seq<char>,
)
    ensures
        json::lookup(
            named + tools::member("description"@, described) + seq![("parameters"@, schema)],
            key,
        ) == if key == "parameters"@ {
            Some(schema)
        } else if key == "description"@ && described is Some {
            described
        } else {
            json::lookup(named, key)
        },
{
    items::lemma_member_names();
    lemma_lookup_member(named, "description"@, described, key);
    lemma_lookup_add(
        named + tools::member("description"@, described),
        seq![("parameters"@, schema)],
        key,
    );
    lemma_lookup_one("parameters"@, schema, key);
}

/// The hosted web search becomes the backend's own, without access to the live web and for texts and
/// images, with each list of domains that is not empty.
pub proof fn law_web_search_keeps_its_domains(tool: JsonView, key: Seq<char>)
    requires
        hosted_search(tool),
        key == "allowed_domains"@ || key == "blocked_domains"@,
    ensures
        ({
            let r = tools::tool_view(tool);
            &&& r.get("type"@) == Some(JsonView::Str("web_search"@))
            &&& r.get("external_web_access"@) == Some(JsonView::Bool(false))
            &&& r.get("search_content_types"@) == Some(
                JsonView::Array(seq![JsonView::Str("text"@), JsonView::Str("image"@)]),
            )
            &&& tool.get_array(key) is Some && tool.get_array(key)->0.len() > 0 ==> r.get2(
                "filters"@,
                key,
            ) == Some(JsonView::Array(tools::strings_of(tool.get_array(key)->0)))
            &&& tool.get_array(key) is None || tool.get_array(key)->0.len() == 0 ==> r.get2(
                "filters"@,
                key,
            ) is None
        }),
{
    items::lemma_member_names();
    let filters = tools::filters_view(tool);
    let fixed = seq![
        ("type"@, JsonView::Str("web_search"@)),
        ("external_web_access"@, JsonView::Bool(false)),
        (
            "search_content_types"@,
            JsonView::Array(seq![JsonView::Str("text"@), JsonView::Str("image"@)]),
        ),
    ];
    let limits = if filters.len() == 0 {
        None
    } else {
        Some(JsonView::Object(filters))
    };
    lemma_lookup_member(fixed, "filters"@, limits, "type"@);
    lemma_lookup_member(fixed, "filters"@, limits, "external_web_access"@);
    lemma_lookup_member(fixed, "filters"@, limits, "search_content_types"@);
    lemma_lookup_member(fixed, "filters"@, limits, "filters"@);
    reveal_with_fuel(json::lookup, 4);
    assert(fixed.last().0 == "search_content_types"@);
    assert(fixed.drop_last().last().0 == "external_web_access"@);
    assert(fixed.drop_last().drop_last().last().0 == "type"@);
    let allowed = tools::domains_view(tool, "allowed_domains"@);
    let blocked = tools::domains_view(tool, "blocked_domains"@);
    lemma_lookup_member(tools::member("allowed_domains"@, allowed), "blocked_domains"@, blocked, key);
    lemma_lookup_member(Members::empty(), "allowed_domains"@, allowed, key);
    assert(Members::empty() + tools::member("allowed_domains"@, allowed) =~= tools::member(
        "allowed_domains"@,
        allowed,
    ));
    lemma_lookup_one(key, JsonView::Null, key);
    if filters.len() == 0 {
        assert(json::lookup(filters, key) is None);
    }
}

/// Of a list of domains the texts stay, each in its place, and nothing else does.
pub proof fn law_domains_are_texts(a: Seq<JsonView>, b: Seq<JsonView>, v: JsonView)
    ensures
        tools::strings_of(Seq::<JsonView>::empty()) == Seq::<JsonView>::empty(),
        tools::strings_of(a + b) == tools::strings_of(a) + tools::strings_of(b),
        v is Str ==> tools::strings_of(seq![v]) == seq![v],
        !(v is Str) ==> tools::strings_of(seq![v]) == Seq::<JsonView>::empty(),
    decreases b.len(),
{
    assert(seq![v].drop_last() =~= Seq::<JsonView>::empty());
    assert(tools::strings_of(Seq::<JsonView>::empty()) =~= Seq::<JsonView>::empty());
    assert(Seq::<JsonView>::empty().push(v) =~= seq![v]);
    if b.len() == 0 {
        assert(a + b =~= a);
        assert(tools::strings_of(a) + tools::strings_of(b) =~= tools::strings_of(a));
    } else {
        law_domains_are_texts(a, b.drop_last(), v);
        assert((a + b).drop_last() =~= a + b.drop_last());
        let front = tools::strings_of(a);
        let back = tools::strings_of(b.drop_last());
        assert((front + back).push(b.last()) =~= front + back.push(b.last()));
    }
}

/// What a body says of the choice of tool is what the request says: no tool is no tool, any tool is
/// some tool, and a tool by its name is the function of that name, unless it is the hosted web search;
/// where the body says nothing else, the request does not say.
pub proof fn law_the_choice_is_handed_on(
    body: JsonView,
    model: Seq<char>,
    session: Option<Seq<char>>,
    rewrites: Seq<RewriteView>,
    choice: JsonView,
)
    requires
        body.get("tool_choice"@) == Some(choice),
    ensures
        ({
            let given = sent(body, model, session, rewrites).get("tool_choice"@);
            let kind = choice.get_str("type"@);
            &&& kind == Some("none"@) ==> given == Some(JsonView::Str("none"@))
            &&& kind == Some("any"@) || kind == Some("required"@) ==> given == Some(
                JsonView::Str("required"@),
            )
            &&& kind == Some("tool"@) ==> match choice.get_str("name"@) {
                None => given is None,
                Some(name) => if name == "web_search_20250305"@ || is_hosted_search(body, name) {
                    given is None
                } else {
                    given is Some && given->0.get("type"@) == Some(JsonView::Str("function"@))
                        && given->0.get("name"@) == Some(JsonView::Str(name))
                },
            }
            &&& kind != Some("none"@) && kind != Some("any"@) && kind != Some("required"@) && kind
                != Some("tool"@) ==> given is None
        }),
{
    lemma_request_keys();
    lemma_sent(body, model, session, rewrites, 4);
    lemma_choices();
    items::lemma_member_names();
    match choice.get_str("name"@) {
        Some(name) => {
            let m = seq![("type"@, JsonView::Str("function"@)), ("name"@, JsonView::Str(name))];
            reveal_with_fuel(json::lookup, 3);
            assert(m.last().0 == "name"@);
            assert(m.drop_last().last().0 == "type"@);
            assert(json::lookup(m, "name"@) == Some(JsonView::Str(name)));
            assert(json::lookup(m, "type"@) == Some(JsonView::Str("function"@)));
            lemma_hosted(body, name);
        },
        None => {},
    }
}

/// The body has a tool of that name that is the hosted web search.
pub open spec fn is_hosted_search(body: JsonView, name: Seq<char>) -> bool {
    body.get_array("tools"@) is Some && exists|i: int|
        0 <= i < body.get_array("tools"@)->0.len() && hosted_search(
            #[trigger] body.get_array("tools"@)->0[i],
        ) && body.get_array("tools"@)->0[i].get_str("name"@) == Some(name)
}

proof fn lemma_hosted(body: JsonView, name: Seq<char>)
    ensures
        is_hosted_search(body, name) == (body.get_array("tools"@) is Some
            && tools::names_web_search(body.get_array("tools"@)->0, name)),
{
    if body.get_array("tools"@) is Some {
        let ts = body.get_array("tools"@)->0;
        if tools::names_web_search(ts, name) {
            let i = choose|i: int|
                0 <= i < ts.len() && tools::searches_web(#[trigger] ts[i]) && ts[i].get_str(
                    "name"@,
                ) == Some(name);
            assert(hosted_search(body.get_array("tools"@)->0[i]));
        }
        if is_hosted_search(body, name) {
            let i = choose|i: int|
                0 <= i < ts.len() && hosted_search(#[trigger] ts[i]) && ts[i].get_str("name"@)
                    == Some(name);
            assert(tools::searches_web(ts[i]));
        }
    }
}

proof fn lemma_choices()
    ensures
        "tool"@ != "none"@,
        "tool"@ != "any"@,
        "tool"@ != "required"@,
        "none"@ != "any"@,
        "none"@ != "required"@,
{
    reveal_strlit("none");
    reveal_strlit("any");
    reveal_strlit("required");
    reveal_strlit("tool");
    assert("tool"@.len() == 4 && "none"@.len() == 4 && "any"@.len() == 3 && "required"@.len() == 8);
    assert("tool"@[0] == 't' && "none"@[0] == 'n');
}

/// A body that makes no choice leaves it to the model.
pub proof fn law_no_choice_is_no_choice(
    body: JsonView,
    model: Seq<char>,
    session: Option<Seq<char>>,
    rewrites: Seq<RewriteView>,
)
    requires
        body.get("tool_choice"@) is None,
    ensures
        sent(body, model, session, rewrites).get("tool_choice"@) is None,
{
    lemma_request_keys();
    lemma_sent(body, model, session, rewrites, 4);
}

// ---------------------------------------------------------------------------------------------
// Items
// ---------------------------------------------------------------------------------------------

/// A part has its kind and its text; an image has its address and no tier of detail.
pub proof fn law_parts_have_their_members(kind: Seq<char>, said: Seq<char>)
    ensures
        ({
            let p = items::text_part_view(kind, said);
            &&& p.get("type"@) == Some(JsonView::Str(kind))
            &&& p.get("text"@) == Some(JsonView::Str(said))
            &&& p->Object_0.len() == 2
        }),
        ({
            let p = items::image_part_view(said);
            &&& p.get("type"@) == Some(JsonView::Str("input_image"@))
            &&& p.get("image_url"@) == Some(JsonView::Str(said))
            &&& p.get("detail"@) == Some(JsonView::Null)
            &&& p->Object_0.len() == 3
        }),
{
    items::lemma_member_names();
    reveal_with_fuel(json::lookup, 4);
    let t = items::text_part_view(kind, said)->Object_0;
    assert(t.last().0 == "text"@);
    assert(t.drop_last().last().0 == "type"@);
    let i = items::image_part_view(said)->Object_0;
    assert(i.last().0 == "detail"@);
    assert(i.drop_last().last().0 == "image_url"@);
    assert(i.drop_last().drop_last().last().0 == "type"@);
}

/// A message has its role and its parts, a call its id, its name and its arguments, and an answer the
/// id of the call and what came of it.
pub proof fn law_items_have_their_members(
    role: Seq<char>,
    parts: Seq<JsonView>,
    id: Seq<char>,
    name: Seq<char>,
    said: Seq<char>,
)
    ensures
        ({
            let m = items::message_view(role, parts);
            &&& m.get("type"@) == Some(JsonView::Str("message"@))
            &&& m.get("role"@) == Some(JsonView::Str(role))
            &&& m.get("content"@) == Some(JsonView::Array(parts))
            &&& m->Object_0.len() == 3
        }),
        ({
            let c = items::function_call_view(id, name, said);
            &&& c.get("type"@) == Some(JsonView::Str("function_call"@))
            &&& c.get("call_id"@) == Some(JsonView::Str(id))
            &&& c.get("name"@) == Some(JsonView::Str(name))
            &&& c.get("arguments"@) == Some(JsonView::Str(said))
            &&& c->Object_0.len() == 4
        }),
        ({
            let a = items::function_call_output_view(id, said);
            &&& a.get("type"@) == Some(JsonView::Str("function_call_output"@))
            &&& a.get("call_id"@) == Some(JsonView::Str(id))
            &&& a.get("output"@) == Some(JsonView::Str(said))
            &&& a->Object_0.len() == 3
        }),
{
    items::lemma_member_names();
    reveal_with_fuel(json::lookup, 5);
    let m = items::message_view(role, parts)->Object_0;
    assert(m.last().0 == "content"@);
    assert(m.drop_last().last().0 == "role"@);
    assert(m.drop_last().drop_last().last().0 == "type"@);
    let c = items::function_call_view(id, name, said)->Object_0;
    assert(c.last().0 == "arguments"@);
    assert(c.drop_last().last().0 == "name"@);
    assert(c.drop_last().drop_last().last().0 == "call_id"@);
    assert(c.drop_last().drop_last().drop_last().last().0 == "type"@);
    let a = items::function_call_output_view(id, said)->Object_0;
    assert(a.last().0 == "output"@);
    assert(a.drop_last().last().0 == "call_id"@);
    assert(a.drop_last().drop_last().last().0 == "type"@);
}

// ---------------------------------------------------------------------------------------------
// Headers
// ---------------------------------------------------------------------------------------------

/// The headers of a request.
pub open spec fn headers_sent(
    token: Seq<char>,
    account: Option<Seq<char>>,
    session: Option<Seq<char>>,
) -> HeaderList {
    headers::fixed_headers(token) + headers::account_headers(account) + headers::session_headers(
        session,
    )
}

/// A request carries its token, says what it sends and takes and who sends it, and names the account
/// and the session where they are known; it carries nothing else.
pub proof fn law_requests_say_who_sends_them(
    token: Seq<char>,
    account: Option<Seq<char>>,
    session: Option<Seq<char>>,
)
    ensures
        ({
            let h = headers_sent(token, account, session);
            &&& h.contains(("authorization"@, "Bearer "@ + token))
            &&& h.contains(("content-type"@, "application/json"@))
            &&& h.contains(("accept"@, "text/event-stream"@))
            &&& h.contains(("originator"@, "llmtrim"@))
            &&& h.contains(("openai-beta"@, "responses=experimental"@))
            &&& h.contains(("user-agent"@, "llmtrim/"@ + headers::VERSION@))
            &&& account is Some ==> h.contains(("ChatGPT-Account-Id"@, account->0))
            &&& session is Some ==> h.contains(("session_id"@, session->0)) && h.contains(
                ("x-client-request-id"@, session->0),
            ) && h.contains(("x-codex-window-id"@, session->0 + ":0"@))
            &&& h.len() == 6 + (if account is Some {
                1int
            } else {
                0
            }) + (if session is Some {
                3int
            } else {
                0
            })
        }),
{
    let h = headers_sent(token, account, session);
    let n: int = if account is Some {
        7
    } else {
        6
    };
    assert(h[0] == ("content-type"@, "application/json"@));
    assert(h[1] == ("accept"@, "text/event-stream"@));
    assert(h[2] == ("authorization"@, "Bearer "@ + token));
    assert(h[3] == ("originator"@, "llmtrim"@));
    assert(h[4] == ("openai-beta"@, "responses=experimental"@));
    assert(h[5] == ("user-agent"@, "llmtrim/"@ + headers::VERSION@));
    if account is Some {
        assert(h[6] == ("ChatGPT-Account-Id"@, account->0));
    }
    if session is Some {
        assert(h[n] == ("session_id"@, session->0));
        assert(h[n + 1] == ("x-client-request-id"@, session->0));
        assert(h[n + 2] == ("x-codex-window-id"@, session->0 + ":0"@));
    }
}

} // verus!
