//! The items and parts that a Responses conversation is made of.
use crate::json;
use crate::json::{Json, JsonObject, JsonView};
use vstd::prelude::*;

verus! {

/// `s`, or `other` where it is missing.
pub open spec fn text_or(s: Option<Seq<char>>, other: Seq<char>) -> Seq<char> {
    match s {
        Some(t) => t,
        None => other,
    }
}

/// `s`, or `other` where it is missing.
pub fn str_or<'a>(s: Option<&'a str>, other: &'a str) -> (r: &'a str)
    ensures
        r@ == match s {
            Some(t) => t@,
            None => other@,
        },
{
    match s {
        Some(t) => t,
        None => other,
    }
}

/// Appends one value.
pub fn add_item(list: &mut Vec<Json>, item: Json)
    ensures
        json::jsons(final(list)@) == json::jsons(old(list)@).push(item@),
{
    list.push(item);
    assert(json::jsons(list@) =~= json::jsons(old(list)@).push(item@));
}

/// The member names that meet in one object differ from one another.
pub proof fn lemma_member_names()
    ensures
        "type"@ != "text"@,
        "type"@ != "role"@,
        "type"@ != "content"@,
        "role"@ != "content"@,
        "type"@ != "call_id"@,
        "type"@ != "name"@,
        "type"@ != "arguments"@,
        "call_id"@ != "name"@,
        "call_id"@ != "arguments"@,
        "name"@ != "arguments"@,
        "type"@ != "image_url"@,
        "type"@ != "detail"@,
        "image_url"@ != "detail"@,
        "type"@ != "output"@,
        "call_id"@ != "output"@,
        "type"@ != "description"@,
        "type"@ != "parameters"@,
        "name"@ != "description"@,
        "name"@ != "parameters"@,
        "description"@ != "parameters"@,
        "type"@ != "external_web_access"@,
        "type"@ != "search_content_types"@,
        "type"@ != "filters"@,
        "external_web_access"@ != "search_content_types"@,
        "external_web_access"@ != "filters"@,
        "search_content_types"@ != "filters"@,
        "allowed_domains"@ != "blocked_domains"@,
        "type"@ != "schema"@,
        "type"@ != "strict"@,
        "name"@ != "schema"@,
        "name"@ != "strict"@,
        "schema"@ != "strict"@,
        "effort"@ != "summary"@,
        "verbosity"@ != "format"@,
{
    reveal_strlit("type");
    reveal_strlit("text");
    reveal_strlit("role");
    reveal_strlit("content");
    reveal_strlit("call_id");
    reveal_strlit("name");
    reveal_strlit("arguments");
    reveal_strlit("image_url");
    reveal_strlit("detail");
    reveal_strlit("output");
    reveal_strlit("description");
    reveal_strlit("parameters");
    reveal_strlit("external_web_access");
    reveal_strlit("search_content_types");
    reveal_strlit("filters");
    reveal_strlit("allowed_domains");
    reveal_strlit("blocked_domains");
    reveal_strlit("schema");
    reveal_strlit("strict");
    reveal_strlit("effort");
    reveal_strlit("summary");
    reveal_strlit("verbosity");
    reveal_strlit("format");
    assert("type"@[1] != "text"@[1]);
    assert("type"@[0] != "role"@[0]);
    assert("type"@.len() != "content"@.len());
    assert("role"@.len() != "content"@.len());
    assert("type"@.len() != "call_id"@.len());
    assert("type"@[0] != "name"@[0]);
    assert("type"@.len() != "arguments"@.len());
    assert("call_id"@.len() != "name"@.len());
    assert("call_id"@.len() != "arguments"@.len());
    assert("name"@.len() != "arguments"@.len());
    assert("type"@.len() != "image_url"@.len());
    assert("type"@.len() != "detail"@.len());
    assert("image_url"@.len() != "detail"@.len());
    assert("type"@.len() != "output"@.len());
    assert("call_id"@.len() != "output"@.len());
    assert("type"@.len() != "description"@.len());
    assert("type"@.len() != "parameters"@.len());
    assert("name"@.len() != "description"@.len());
    assert("name"@.len() != "parameters"@.len());
    assert("description"@.len() != "parameters"@.len());
    assert("type"@.len() != "external_web_access"@.len());
    assert("type"@.len() != "search_content_types"@.len());
    assert("type"@.len() != "filters"@.len());
    assert("external_web_access"@.len() != "search_content_types"@.len());
    assert("external_web_access"@.len() != "filters"@.len());
    assert("search_content_types"@.len() != "filters"@.len());
    assert("allowed_domains"@[0] != "blocked_domains"@[0]);
    assert("type"@.len() != "schema"@.len());
    assert("type"@.len() != "strict"@.len());
    assert("name"@.len() != "schema"@.len());
    assert("name"@.len() != "strict"@.len());
    assert("schema"@[1] != "strict"@[1]);
    assert("effort"@.len() != "summary"@.len());
    assert("verbosity"@.len() != "format"@.len());
}

/// `{ "type": kind, "text": text }`
pub open spec fn text_part_view(kind: Seq<char>, text: Seq<char>) -> JsonView {
    JsonView::Object(
        seq![
            ("type"@, JsonView::Str(kind)),
            ("text"@, JsonView::Str(text)),
        ],
    )
}

/// `{ "type": kind, "text": text }`
pub fn text_part(kind: &str, text: &str) -> (r: Json)
    ensures
        r@ == text_part_view(kind@, text@),
{
    proof {
        lemma_member_names();
    }
    let mut o = JsonObject::new();
    o.insert("type", Json::text(kind));
    o.insert("text", Json::text(text));
    assert(o@ =~= text_part_view(kind@, text@)->Object_0);
    Json::Object(o)
}

/// A message item: `{ "type": "message", "role": role, "content": content }`.
pub open spec fn message_view(role: Seq<char>, content: Seq<JsonView>) -> JsonView {
    JsonView::Object(
        seq![
            ("type"@, JsonView::Str("message"@)),
            ("role"@, JsonView::Str(role)),
            ("content"@, JsonView::Array(content)),
        ],
    )
}

/// A message item: `{ "type": "message", "role": role, "content": content }`.
pub fn message(role: &str, content: Vec<Json>) -> (r: Json)
    ensures
        r@ == message_view(role@, json::jsons(content@)),
{
    proof {
        lemma_member_names();
        json::lemma_array_view(content);
    }
    let mut o = JsonObject::new();
    let ghost parts = json::jsons(content@);
    o.insert("type", Json::text("message"));
    o.insert("role", Json::text(role));
    o.insert("content", Json::Array(content));
    assert(o@ =~= message_view(role@, parts)->Object_0);
    Json::Object(o)
}

/// A tool call item: the call's id, the tool's name and the arguments as JSON text.
pub open spec fn function_call_view(call_id: Seq<char>, name: Seq<char>, arguments: Seq<char>) -> JsonView {
    JsonView::Object(
        seq![
            ("type"@, JsonView::Str("function_call"@)),
            ("call_id"@, JsonView::Str(call_id)),
            ("name"@, JsonView::Str(name)),
            ("arguments"@, JsonView::Str(arguments)),
        ],
    )
}

/// A tool call item: the call's id, the tool's name and the arguments as JSON text.
pub fn function_call(call_id: &str, name: &str, arguments: &str) -> (r: Json)
    ensures
        r@ == function_call_view(call_id@, name@, arguments@),
{
    proof {
        lemma_member_names();
    }
    let mut o = JsonObject::new();
    o.insert("type", Json::text("function_call"));
    o.insert("call_id", Json::text(call_id));
    o.insert("name", Json::text(name));
    o.insert("arguments", Json::text(arguments));
    assert(o@ =~= function_call_view(call_id@, name@, arguments@)->Object_0);
    Json::Object(o)
}

/// A tool result item: the id of the call that it answers and the result's text.
pub open spec fn function_call_output_view(call_id: Seq<char>, output: Seq<char>) -> JsonView {
    JsonView::Object(
        seq![
            ("type"@, JsonView::Str("function_call_output"@)),
            ("call_id"@, JsonView::Str(call_id)),
            ("output"@, JsonView::Str(output)),
        ],
    )
}

/// A tool result item: the id of the call that it answers and the result's text.
pub fn function_call_output(call_id: &str, output: &str) -> (r: Json)
    ensures
        r@ == function_call_output_view(call_id@, output@),
{
    proof {
        lemma_member_names();
    }
    let mut o = JsonObject::new();
    o.insert("type", Json::text("function_call_output"));
    o.insert("call_id", Json::text(call_id));
    o.insert("output", Json::text(output));
    assert(o@ =~= function_call_output_view(call_id@, output@)->Object_0);
    Json::Object(o)
}

/// An image part: the image's address, with no detail tier.
pub open spec fn image_part_view(image_url: Seq<char>) -> JsonView {
    JsonView::Object(
        seq![
            ("type"@, JsonView::Str("input_image"@)),
            ("image_url"@, JsonView::Str(image_url)),
            ("detail"@, JsonView::Null),
        ],
    )
}

/// An image part: the image's address, with no detail tier.
pub fn image_part(image_url: &str) -> (r: Json)
    ensures
        r@ == image_part_view(image_url@),
{
    proof {
        lemma_member_names();
    }
    let mut o = JsonObject::new();
    o.insert("type", Json::text("input_image"));
    o.insert("image_url", Json::text(image_url));
    o.insert("detail", Json::Null);
    assert(o@ =~= image_part_view(image_url@)->Object_0);
    Json::Object(o)
}

} // verus!
