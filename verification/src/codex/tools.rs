//! The tools of a Responses request, and which of them the model has to call.
use crate::codex::items;
use crate::json;
use crate::json::{Json, JsonObject, JsonView, Members};
use crate::text;
use vstd::prelude::*;

verus! {

/// The hosted web-search tool of the messages service.
pub const WEB_SEARCH_TOOL: &'static str = "web_search_20250305";

// ---------------------------------------------------------------------------------------------
// Tools
// ---------------------------------------------------------------------------------------------

/// The member `key` where it has a value, else nothing.
pub open spec fn member(key: Seq<char>, value: Option<JsonView>) -> Members {
    match value {
        Some(v) => seq![(key, v)],
        None => Seq::empty(),
    }
}

/// The texts among the values.
pub open spec fn strings_of(vs: Seq<JsonView>) -> Seq<JsonView>
    decreases vs.len(),
{
    if vs.len() == 0 {
        Seq::empty()
    } else if vs.last() is Str {
        strings_of(vs.drop_last()).push(vs.last())
    } else {
        strings_of(vs.drop_last())
    }
}

/// The domains that a web-search tool lists under `key`; `None` where it lists nothing.
pub open spec fn domains_view(tool: JsonView, key: Seq<char>) -> Option<JsonView> {
    match tool.get_array(key) {
        Some(a) => if a.len() == 0 {
            None
        } else {
            Some(JsonView::Array(strings_of(a)))
        },
        None => None,
    }
}

/// The domain filters of a web-search tool.
pub open spec fn filters_view(tool: JsonView) -> Members {
    member("allowed_domains"@, domains_view(tool, "allowed_domains"@)) + member(
        "blocked_domains"@,
        domains_view(tool, "blocked_domains"@),
    )
}

/// The backend's own web-search tool, with the domain filters of `tool` where it has any.
pub open spec fn web_search_view(tool: JsonView) -> JsonView {
    let filters = filters_view(tool);
    JsonView::Object(
        seq![
            ("type"@, JsonView::Str("web_search"@)),
            ("external_web_access"@, JsonView::Bool(false)),
            (
                "search_content_types"@,
                JsonView::Array(seq![JsonView::Str("text"@), JsonView::Str("image"@)]),
            ),
        ] + member(
            "filters"@,
            if filters.len() == 0 {
                None
            } else {
                Some(JsonView::Object(filters))
            },
        ),
    )
}

/// Whether a tool is the hosted web search, by its name or by its type.
pub open spec fn searches_web(tool: JsonView) -> bool {
    tool.get_str("name"@) == Some(WEB_SEARCH_TOOL@) || tool.get_str("type"@) == Some(
        WEB_SEARCH_TOOL@,
    )
}

/// A function tool: its name, its description where it has one, and the schema of its input.
pub open spec fn function_tool_view(tool: JsonView) -> JsonView {
    JsonView::Object(
        seq![
            ("type"@, JsonView::Str("function"@)),
            ("name"@, JsonView::Str(items::text_or(tool.get_str("name"@), Seq::empty()))),
        ] + member(
            "description"@,
            match tool.get_str("description"@) {
                Some(d) => Some(JsonView::Str(d)),
                None => None,
            },
        ) + seq![
            (
                "parameters"@,
                match tool.get("input_schema"@) {
                    Some(v) => v,
                    None => JsonView::Object(Seq::empty()),
                },
            ),
        ],
    )
}

/// One tool as the backend takes it.
pub open spec fn tool_view(tool: JsonView) -> JsonView {
    if searches_web(tool) {
        web_search_view(tool)
    } else {
        function_tool_view(tool)
    }
}

/// The tools of a body as the backend takes them.
pub open spec fn tools_view(body: JsonView) -> Seq<JsonView> {
    match body.get_array("tools"@) {
        Some(ts) => ts.map_values(|t: JsonView| tool_view(t)),
        None => Seq::empty(),
    }
}

/// Whether a tool is the hosted web search.
pub fn is_web_search(tool: &Json) -> (r: bool)
    ensures
        r == searches_web(tool@),
{
    let by_name = match tool.get_str("name") {
        Some(n) => text::same(n, WEB_SEARCH_TOOL),
        None => false,
    };
    let by_type = match tool.get_str("type") {
        Some(t) => text::same(t, WEB_SEARCH_TOOL),
        None => false,
    };
    by_name || by_type
}

fn domains(tool: &Json, key: &str) -> (r: Option<Json>)
    ensures
        match r {
            Some(j) => domains_view(tool@, key@) == Some(j@),
            None => domains_view(tool@, key@) is None,
        },
{
    let list = match tool.get_array(key) {
        Some(a) => a,
        None => {
            return None;
        },
    };
    if list.len() == 0 {
        return None;
    }
    let ghost all = json::jsons(list@);
    let mut out: Vec<Json> = Vec::new();
    let mut i: usize = 0;
    assert(all.take(0) =~= Seq::<JsonView>::empty());
    assert(json::jsons(out@) =~= Seq::<JsonView>::empty());
    while i < list.len()
        invariant
            i <= list@.len(),
            all == json::jsons(list@),
            json::jsons(out@) == strings_of(all.take(i as int)),
        decreases list@.len() - i,
    {
        assert(all.take(i + 1).drop_last() =~= all.take(i as int));
        assert(all.take(i + 1).last() == list@[i as int]@);
        match list[i].as_str() {
            Some(s) => items::add_item(&mut out, Json::text(s)),
            None => {},
        }
        i = i + 1;
    }
    assert(all.take(all.len() as int) =~= all);
    proof {
        json::lemma_array_view(out);
    }
    Some(Json::Array(out))
}

/// The backend's own web-search tool.
pub fn web_search_tool(tool: &Json) -> (r: Json)
    ensures
        r@ == web_search_view(tool@),
{
    proof {
        items::lemma_member_names();
    }
    let mut filters = JsonObject::new();
    match domains(tool, "allowed_domains") {
        Some(d) => {
            filters.insert("allowed_domains", d);
        },
        None => {},
    }
    match domains(tool, "blocked_domains") {
        Some(d) => {
            filters.insert("blocked_domains", d);
        },
        None => {},
    }
    assert(filters@ =~= filters_view(tool@));
    let mut kinds: Vec<Json> = Vec::new();
    assert(json::jsons(kinds@) =~= Seq::<JsonView>::empty());
    items::add_item(&mut kinds, Json::text("text"));
    items::add_item(&mut kinds, Json::text("image"));
    assert(json::jsons(kinds@) =~= seq![JsonView::Str("text"@), JsonView::Str("image"@)]);
    proof {
        json::lemma_array_view(kinds);
    }
    let mut o = JsonObject::new();
    o.insert("type", Json::text("web_search"));
    o.insert("external_web_access", Json::Bool(false));
    o.insert("search_content_types", Json::Array(kinds));
    if filters.len() > 0 {
        o.insert("filters", Json::Object(filters));
    }
    assert(o@ =~= web_search_view(tool@)->Object_0);
    Json::Object(o)
}

fn function_tool(tool: &Json) -> (r: Json)
    ensures
        r@ == function_tool_view(tool@),
{
    proof {
        items::lemma_member_names();
        reveal_strlit("");
        assert(""@ =~= Seq::<char>::empty());
    }
    let mut o = JsonObject::new();
    o.insert("type", Json::text("function"));
    o.insert("name", Json::text(items::str_or(tool.get_str("name"), "")));
    match tool.get_str("description") {
        Some(d) => {
            o.insert("description", Json::text(d));
        },
        None => {},
    }
    let schema = match tool.get("input_schema") {
        Some(v) => v.clone(),
        None => Json::Object(JsonObject::new()),
    };
    o.insert("parameters", schema);
    assert(o@ =~= function_tool_view(tool@)->Object_0);
    Json::Object(o)
}

/// The tools of a body as the backend takes them.
pub fn build_tools(anthropic: &Json) -> (r: Vec<Json>)
    ensures
        json::jsons(r@) == tools_view(anthropic@),
{
    let mut out: Vec<Json> = Vec::new();
    assert(json::jsons(out@) =~= Seq::<JsonView>::empty());
    let tools = match anthropic.get_array("tools") {
        Some(t) => t,
        None => {
            return out;
        },
    };
    let ghost all = tools_view(anthropic@);
    let mut i: usize = 0;
    while i < tools.len()
        invariant
            i <= tools@.len(),
            all == json::jsons(tools@).map_values(|t: JsonView| tool_view(t)),
            json::jsons(out@) == all.take(i as int),
        decreases tools@.len() - i,
    {
        let t = &tools[i];
        let built = if is_web_search(t) {
            web_search_tool(t)
        } else {
            function_tool(t)
        };
        items::add_item(&mut out, built);
        assert(all.take(i + 1) =~= all.take(i as int).push(all[i as int]));
        i = i + 1;
    }
    assert(all.take(all.len() as int) =~= all);
    out
}

/// The choice of tool as the backend takes it: a word, or the function that has to be called; `None`
/// where the model may choose, and where the hosted web search was chosen.
pub open spec fn tool_choice_view(choice: Option<JsonView>) -> Option<JsonView> {
    match choice {
        Some(tc) => {
            let kind = tc.get_str("type"@);
            if kind == Some("none"@) {
                Some(JsonView::Str("none"@))
            } else if kind == Some("any"@) || kind == Some("required"@) {
                Some(JsonView::Str("required"@))
            } else if kind == Some("tool"@) {
                match tc.get_str("name"@) {
                    Some(name) => if name == WEB_SEARCH_TOOL@ {
                        None
                    } else {
                        Some(
                            JsonView::Object(
                                seq![
                                    ("type"@, JsonView::Str("function"@)),
                                    ("name"@, JsonView::Str(name)),
                                ],
                            ),
                        )
                    },
                    None => None,
                }
            } else {
                None
            }
        },
        None => None,
    }
}

/// Whether `name` is the name of a tool that is the hosted web search.
pub open spec fn names_web_search(ts: Seq<JsonView>, name: Seq<char>) -> bool {
    exists|i: int|
        0 <= i < ts.len() && searches_web(#[trigger] ts[i]) && ts[i].get_str("name"@) == Some(name)
}

/// Whether a body chooses a tool of its own that is the hosted web search.
pub open spec fn chooses_web_search(body: JsonView) -> bool {
    match (body.get("tool_choice"@), body.get_array("tools"@)) {
        (Some(tc), Some(ts)) => tc.get_str("type"@) == Some("tool"@) && tc.get_str("name"@) is Some
            && names_web_search(ts, tc.get_str("name"@)->0),
        _ => false,
    }
}

/// The choice of tool of a request: that of the body, unless it is one of the body's own tools that
/// is the hosted web search.
pub open spec fn choice_view(body: JsonView) -> Option<JsonView> {
    if chooses_web_search(body) {
        None
    } else {
        tool_choice_view(body.get("tool_choice"@))
    }
}

/// An optional value as an optional tree.
pub open spec fn tree_option(v: Option<&Json>) -> Option<JsonView> {
    match v {
        Some(j) => Some(j@),
        None => None,
    }
}

/// The choice of tool as the backend takes it.
pub fn build_tool_choice(tc: Option<&Json>) -> (r: Option<Json>)
    ensures
        match r {
            Some(j) => tool_choice_view(tree_option(tc)) == Some(j@),
            None => tool_choice_view(tree_option(tc)) is None,
        },
{
    let choice = match tc {
        Some(c) => c,
        None => {
            return None;
        },
    };
    let kind = match choice.get_str("type") {
        Some(k) => k,
        None => {
            return None;
        },
    };
    if text::same(kind, "none") {
        Some(Json::text("none"))
    } else if text::same(kind, "any") || text::same(kind, "required") {
        Some(Json::text("required"))
    } else if text::same(kind, "tool") {
        match choice.get_str("name") {
            Some(name) => {
                if text::same(name, WEB_SEARCH_TOOL) {
                    return None;
                }
                proof {
                    items::lemma_member_names();
                }
                let mut o = JsonObject::new();
                o.insert("type", Json::text("function"));
                o.insert("name", Json::text(name));
                assert(o@ =~= tool_choice_view(tree_option(tc))->0->Object_0);
                Some(Json::Object(o))
            },
            None => None,
        }
    } else {
        None
    }
}

/// Whether `name` is the name of a tool that is the hosted web search.
fn web_search_named(ts: &Vec<Json>, name: &str) -> (r: bool)
    ensures
        r == names_web_search(json::jsons(ts@), name@),
{
    let ghost all = json::jsons(ts@);
    let mut i: usize = 0;
    while i < ts.len()
        invariant
            i <= ts@.len(),
            all == json::jsons(ts@),
            forall|j: int|
                0 <= j < i ==> !(searches_web(#[trigger] all[j]) && all[j].get_str("name"@) == Some(
                    name@,
                )),
        decreases ts@.len() - i,
    {
        assert(all[i as int] == ts@[i as int]@);
        if is_web_search(&ts[i]) {
            match ts[i].get_str("name") {
                Some(n) => {
                    if text::same(n, name) {
                        return true;
                    }
                },
                None => {},
            }
        }
        i = i + 1;
    }
    false
}

/// The choice of tool of a request for a body. A choice that targets the hosted web search is dropped,
/// under whatever name the body declares it.
pub fn chosen_tool(anthropic: &Json) -> (r: Option<Json>)
    ensures
        match r {
            Some(j) => choice_view(anthropic@) == Some(j@),
            None => choice_view(anthropic@) is None,
        },
{
    let choice = anthropic.get("tool_choice");
    match (choice, anthropic.get_array("tools")) {
        (Some(tc), Some(ts)) => {
            match (tc.get_str("type"), tc.get_str("name")) {
                (Some(kind), Some(name)) => {
                    if text::same(kind, "tool") && web_search_named(ts, name) {
                        return None;
                    }
                },
                _ => {},
            }
        },
        _ => {},
    }
    build_tool_choice(choice)
}

} // verus!
