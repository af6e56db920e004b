//! The `input` items of a Responses request.
use crate::codex::items;
use crate::codex::read_rewrite;
use crate::codex::read_rewrite::{ReadOffsetRewrite, RewriteView};
use crate::json;
use crate::json::{Json, JsonObject, JsonView};
use crate::text;
use vstd::prelude::*;

verus! {

// ---------------------------------------------------------------------------------------------
// Content
// ---------------------------------------------------------------------------------------------

/// The texts of the blocks that have one.
pub open spec fn block_texts(blocks: Seq<JsonView>) -> Seq<Seq<char>>
    decreases blocks.len(),
{
    if blocks.len() == 0 {
        Seq::empty()
    } else {
        let before = block_texts(blocks.drop_last());
        match blocks.last().get_str("text"@) {
            Some(t) => before.push(t),
            None => before,
        }
    }
}

/// A text, or the texts of a list of blocks with line feeds between them.
pub open spec fn flat_text(v: JsonView) -> Seq<char> {
    match v {
        JsonView::Str(s) => s,
        JsonView::Array(blocks) => text::join(block_texts(blocks), "\n"@),
        _ => Seq::empty(),
    }
}

/// A text, or the texts of a list of blocks with line feeds between them.
pub fn flatten_text(v: &Json) -> (r: String)
    ensures
        r@ == flat_text(v@),
{
    match v.as_str() {
        Some(s) => {
            return s.to_owned();
        },
        None => {},
    }
    match v.as_array() {
        Some(blocks) => {
            let ghost all = json::jsons(blocks@);
            let mut parts: Vec<String> = Vec::new();
            let mut i: usize = 0;
            assert(all.take(0) =~= Seq::<JsonView>::empty());
            assert(text::texts(parts@) =~= Seq::<Seq<char>>::empty());
            while i < blocks.len()
                invariant
                    i <= blocks@.len(),
                    all == json::jsons(blocks@),
                    text::texts(parts@) == block_texts(all.take(i as int)),
                decreases blocks@.len() - i,
            {
                assert(all.take(i + 1).drop_last() =~= all.take(i as int));
                assert(all.take(i + 1).last() == blocks@[i as int]@);
                match blocks[i].get_str("text") {
                    Some(t) => {
                        let ghost before = text::texts(parts@);
                        parts.push(t.to_owned());
                        assert(text::texts(parts@) =~= before.push(t@));
                    },
                    None => {},
                }
                i = i + 1;
            }
            assert(all.take(all.len() as int) =~= all);
            text::join_with(&parts, "\n")
        },
        None => String::new(),
    }
}

/// The blocks of a message's content. A bare text is one text block.
pub open spec fn blocks_of(content: JsonView) -> Seq<JsonView> {
    match content {
        JsonView::Str(s) => seq![items::text_part_view("text"@, s)],
        JsonView::Array(a) => a,
        _ => Seq::empty(),
    }
}

/// The blocks of a message's content.
pub fn content_blocks(content: &Json) -> (r: Vec<Json>)
    ensures
        json::jsons(r@) == blocks_of(content@),
{
    let mut out: Vec<Json> = Vec::new();
    assert(json::jsons(out@) =~= Seq::<JsonView>::empty());
    match content.as_str() {
        Some(s) => {
            items::add_item(&mut out, items::text_part("text", s));
            assert(json::jsons(out@) =~= blocks_of(content@));
            return out;
        },
        None => {},
    }
    match content.as_array() {
        Some(a) => {
            let ghost all = json::jsons(a@);
            let mut i: usize = 0;
            while i < a.len()
                invariant
                    i <= a@.len(),
                    all == json::jsons(a@),
                    json::jsons(out@) == all.take(i as int),
                decreases a@.len() - i,
            {
                items::add_item(&mut out, a[i].clone());
                assert(all.take(i + 1) =~= all.take(i as int).push(all[i as int]));
                i = i + 1;
            }
            assert(all.take(all.len() as int) =~= all);
        },
        None => {},
    }
    out
}

/// The address of an image block: a data address for a base64 source, the address itself for a url.
pub open spec fn image_address(block: JsonView) -> Option<Seq<char>> {
    match block.get("source"@) {
        Some(source) => {
            let kind = source.get_str("type"@);
            if kind == Some("base64"@) {
                match (source.get_str("media_type"@), source.get_str("data"@)) {
                    (Some(media), Some(data)) => Some("data:"@ + media + ";base64,"@ + data),
                    _ => None,
                }
            } else if kind == Some("url"@) {
                source.get_str("url"@)
            } else {
                None
            }
        },
        None => None,
    }
}

/// The address of an image block.
pub fn image_url(block: &Json) -> (r: Option<String>)
    ensures
        match r {
            Some(s) => image_address(block@) == Some(s@),
            None => image_address(block@) is None,
        },
{
    let source = match block.get("source") {
        Some(s) => s,
        None => {
            return None;
        },
    };
    let kind = match source.get_str("type") {
        Some(k) => k,
        None => {
            return None;
        },
    };
    if text::same(kind, "base64") {
        match (source.get_str("media_type"), source.get_str("data")) {
            (Some(media), Some(data)) => {
                let mut out = "data:".to_owned();
                out.append(media);
                out.append(";base64,");
                out.append(data);
                Some(out)
            },
            _ => None,
        }
    } else if text::same(kind, "url") {
        match source.get_str("url") {
            Some(u) => Some(u.to_owned()),
            None => None,
        }
    } else {
        None
    }
}

/// The text of one part of a tool's result. An image is left out, with a note in its place.
pub open spec fn result_part(p: JsonView) -> Seq<char> {
    if p.get_str("type"@) == Some("image"@) {
        "[image omitted]"@
    } else {
        items::text_or(p.get_str("text"@), Seq::empty())
    }
}

/// The text of a tool's result: its text, or the texts of its parts with line feeds between them; a
/// failed call says so first.
pub open spec fn result_text(block: JsonView) -> Seq<char> {
    let body = match block.get("content"@) {
        Some(JsonView::Str(s)) => s,
        Some(JsonView::Array(parts)) => text::join(
            parts.map_values(|p: JsonView| result_part(p)),
            "\n"@,
        ),
        _ => Seq::empty(),
    };
    if block.get_bool("is_error"@) == Some(true) {
        "[tool execution error]\n"@ + body
    } else {
        body
    }
}

fn result_parts(parts: &Vec<Json>) -> (r: Vec<String>)
    ensures
        text::texts(r@) == json::jsons(parts@).map_values(|p: JsonView| result_part(p)),
{
    let ghost all = json::jsons(parts@).map_values(|p: JsonView| result_part(p));
    let mut out: Vec<String> = Vec::new();
    let mut i: usize = 0;
    assert(text::texts(out@) =~= all.take(0));
    while i < parts.len()
        invariant
            i <= parts@.len(),
            all == json::jsons(parts@).map_values(|p: JsonView| result_part(p)),
            text::texts(out@) == all.take(i as int),
        decreases parts@.len() - i,
    {
        let p = &parts[i];
        let image = match p.get_str("type") {
            Some(k) => text::same(k, "image"),
            None => false,
        };
        let ghost before = text::texts(out@);
        let s = if image {
            "[image omitted]".to_owned()
        } else {
            match p.get_str("text") {
                Some(t) => t.to_owned(),
                None => String::new(),
            }
        };
        assert(s@ =~= result_part(p@));
        out.push(s);
        assert(text::texts(out@) =~= before.push(s@));
        assert(all.take(i + 1) =~= all.take(i as int).push(all[i as int]));
        i = i + 1;
    }
    assert(all.take(all.len() as int) =~= all);
    out
}

/// The text of a tool's result.
pub fn tool_result_output(block: &Json) -> (r: String)
    ensures
        r@ == result_text(block@),
{
    let body = match block.get("content") {
        Some(c) => match c.as_str() {
            Some(s) => s.to_owned(),
            None => match c.as_array() {
                Some(parts) => text::join_with(&result_parts(parts), "\n"),
                None => String::new(),
            },
        },
        None => String::new(),
    };
    if block.get_bool("is_error") == Some(true) {
        let mut out = "[tool execution error]\n".to_owned();
        out.append(body.as_str());
        out
    } else {
        body
    }
}

// ---------------------------------------------------------------------------------------------
// Input
// ---------------------------------------------------------------------------------------------

/// The items that a message has given so far, and the parts that wait to become a message item.
#[verifier::ext_equal]
pub struct Gathered {
    pub items: Seq<JsonView>,
    pub parts: Seq<JsonView>,
}

/// The waiting parts become one message item.
pub open spec fn flushed(g: Gathered, role: Seq<char>) -> Gathered {
    if g.parts.len() == 0 {
        g
    } else {
        Gathered { items: g.items.push(items::message_view(role, g.parts)), parts: Seq::empty() }
    }
}

/// The arguments of a tool call as JSON text.
pub open spec fn arguments_text(block: JsonView) -> Seq<char> {
    match block.get("input"@) {
        Some(JsonView::Null) => "{}"@,
        Some(v) => items::text_or(json::json_text(v), "{}"@),
        None => items::text_or(json::json_text(JsonView::Object(Seq::empty())), "{}"@),
    }
}

/// One block of an assistant's message.
pub open spec fn assistant_block(g: Gathered, b: JsonView) -> Gathered {
    let kind = b.get_str("type"@);
    if kind == Some("text"@) {
        match b.get_str("text"@) {
            Some(t) => Gathered {
                parts: g.parts.push(items::text_part_view("output_text"@, t)),
                ..g
            },
            None => g,
        }
    } else if kind == Some("tool_use"@) {
        let f = flushed(g, "assistant"@);
        Gathered {
            items: f.items.push(
                items::function_call_view(
                    items::text_or(b.get_str("id"@), Seq::empty()),
                    items::text_or(b.get_str("name"@), Seq::empty()),
                    arguments_text(b),
                ),
            ),
            ..f
        }
    } else {
        g
    }
}

/// The text that answers a tool call: the tool's result, and a note where the call was repaired.
pub open spec fn answer_text(b: JsonView, rewrites: Seq<RewriteView>) -> Seq<char> {
    let id = items::text_or(b.get_str("tool_use_id"@), Seq::empty());
    match read_rewrite::latest_rewrite(rewrites, id) {
        Some(rw) => result_text(b) + "\n\n"@ + read_rewrite::note_view(rw.offset),
        None => result_text(b),
    }
}

/// One block of a user's message.
pub open spec fn user_block(g: Gathered, b: JsonView, rewrites: Seq<RewriteView>) -> Gathered {
    let kind = b.get_str("type"@);
    if kind == Some("text"@) {
        match b.get_str("text"@) {
            Some(t) => Gathered {
                parts: g.parts.push(items::text_part_view("input_text"@, t)),
                ..g
            },
            None => g,
        }
    } else if kind == Some("image"@) {
        match image_address(b) {
            Some(url) => Gathered { parts: g.parts.push(items::image_part_view(url)), ..g },
            None => g,
        }
    } else if kind == Some("tool_result"@) {
        let f = flushed(g, "user"@);
        Gathered {
            items: f.items.push(
                items::function_call_output_view(
                    items::text_or(b.get_str("tool_use_id"@), Seq::empty()),
                    answer_text(b, rewrites),
                ),
            ),
            ..f
        }
    } else {
        g
    }
}

/// The blocks of an assistant's message, in order.
pub open spec fn assistant_blocks(g: Gathered, bs: Seq<JsonView>) -> Gathered
    decreases bs.len(),
{
    if bs.len() == 0 {
        g
    } else {
        assistant_block(assistant_blocks(g, bs.drop_last()), bs.last())
    }
}

/// The blocks of a user's message, in order.
pub open spec fn user_blocks(g: Gathered, bs: Seq<JsonView>, rewrites: Seq<RewriteView>) -> Gathered
    decreases bs.len(),
{
    if bs.len() == 0 {
        g
    } else {
        user_block(user_blocks(g, bs.drop_last(), rewrites), bs.last(), rewrites)
    }
}

/// The items of `input` with those of one message after them.
pub open spec fn with_message(
    input: Seq<JsonView>,
    msg: JsonView,
    rewrites: Seq<RewriteView>,
) -> Seq<JsonView> {
    let role = items::text_or(msg.get_str("role"@), "user"@);
    let content = match msg.get("content"@) {
        Some(c) => c,
        None => JsonView::Null,
    };
    let start = Gathered { items: input, parts: Seq::empty() };
    if role == "assistant"@ {
        flushed(assistant_blocks(start, blocks_of(content)), "assistant"@).items
    } else if role == "system"@ || role == "developer"@ {
        input.push(
            items::message_view(
                "developer"@,
                seq![items::text_part_view("input_text"@, flat_text(content))],
            ),
        )
    } else {
        flushed(user_blocks(start, blocks_of(content), rewrites), "user"@).items
    }
}

/// The items of a list of messages.
pub open spec fn messages_input(ms: Seq<JsonView>, rewrites: Seq<RewriteView>) -> Seq<JsonView>
    decreases ms.len(),
{
    if ms.len() == 0 {
        Seq::empty()
    } else {
        with_message(messages_input(ms.drop_last(), rewrites), ms.last(), rewrites)
    }
}

/// The items of a body's messages.
pub open spec fn input_view(body: JsonView, rewrites: Seq<RewriteView>) -> Seq<JsonView> {
    match body.get_array("messages"@) {
        Some(ms) => messages_input(ms, rewrites),
        None => Seq::empty(),
    }
}

/// Makes a message item of the waiting parts, if there are any.
fn flush_message(input: &mut Vec<Json>, role: &str, parts: &mut Vec<Json>)
    ensures
        ({
            let g = flushed(
                Gathered {
                    items: json::jsons(old(input)@),
                    parts: json::jsons(old(parts)@),
                },
                role@,
            );
            json::jsons(final(input)@) == g.items && json::jsons(final(parts)@) == g.parts
        }),
{
    if parts.len() == 0 {
        return;
    }
    let mut taken: Vec<Json> = Vec::new();
    std::mem::swap(&mut taken, parts);
    assert(json::jsons(parts@) =~= Seq::<JsonView>::empty());
    items::add_item(input, items::message(role, taken));
}

/// The arguments of a tool call as JSON text.
fn call_arguments(block: &Json) -> (r: String)
    ensures
        r@ == arguments_text(block@),
{
    let written = match block.get("input") {
        Some(v) => {
            if let Json::Null = v {
                return "{}".to_owned();
            }
            assert(!(v@ is Null));
            v.to_text()
        },
        None => Json::Object(JsonObject::new()).to_text(),
    };
    match written {
        Some(s) => s,
        None => "{}".to_owned(),
    }
}

fn add_assistant_block(input: &mut Vec<Json>, parts: &mut Vec<Json>, b: &Json)
    ensures
        ({
            let g = assistant_block(
                Gathered {
                    items: json::jsons(old(input)@),
                    parts: json::jsons(old(parts)@),
                },
                b@,
            );
            json::jsons(final(input)@) == g.items && json::jsons(final(parts)@) == g.parts
        }),
{
    let kind = match b.get_str("type") {
        Some(k) => k,
        None => {
            return;
        },
    };
    proof {
        reveal_strlit("");
        assert(""@ =~= Seq::<char>::empty());
    }
    if text::same(kind, "text") {
        match b.get_str("text") {
            Some(t) => items::add_item(parts, items::text_part("output_text", t)),
            None => {},
        }
    } else if text::same(kind, "tool_use") {
        flush_message(input, "assistant", parts);
        let args = call_arguments(b);
        items::add_item(
            input,
            items::function_call(
                items::str_or(b.get_str("id"), ""),
                items::str_or(b.get_str("name"), ""),
                args.as_str(),
            ),
        );
    }
}

/// The text that answers a tool call.
fn tool_answer(b: &Json, rewrites: &[ReadOffsetRewrite]) -> (r: String)
    ensures
        r@ == answer_text(b@, read_rewrite::rewrites_view(rewrites@)),
{
    proof {
        reveal_strlit("");
        assert(""@ =~= Seq::<char>::empty());
    }
    let mut output = tool_result_output(b);
    match read_rewrite::read_offset_rewrite(rewrites, items::str_or(b.get_str("tool_use_id"), "")) {
        Some(rw) => {
            output.append("\n\n");
            output.append(read_rewrite::read_offset_rewrite_note(rw).as_str());
        },
        None => {},
    }
    output
}

fn add_user_block(
    input: &mut Vec<Json>,
    parts: &mut Vec<Json>,
    b: &Json,
    rewrites: &[ReadOffsetRewrite],
)
    ensures
        ({
            let g = user_block(
                Gathered {
                    items: json::jsons(old(input)@),
                    parts: json::jsons(old(parts)@),
                },
                b@,
                read_rewrite::rewrites_view(rewrites@),
            );
            json::jsons(final(input)@) == g.items && json::jsons(final(parts)@) == g.parts
        }),
{
    let kind = match b.get_str("type") {
        Some(k) => k,
        None => {
            return;
        },
    };
    proof {
        reveal_strlit("");
        assert(""@ =~= Seq::<char>::empty());
    }
    if text::same(kind, "text") {
        match b.get_str("text") {
            Some(t) => items::add_item(parts, items::text_part("input_text", t)),
            None => {},
        }
    } else if text::same(kind, "image") {
        match image_url(b) {
            Some(url) => items::add_item(parts, items::image_part(url.as_str())),
            None => {},
        }
    } else if text::same(kind, "tool_result") {
        flush_message(input, "user", parts);
        let output = tool_answer(b, rewrites);
        items::add_item(
            input,
            items::function_call_output(items::str_or(b.get_str("tool_use_id"), ""), output.as_str()),
        );
    }
}

fn add_assistant_message(input: &mut Vec<Json>, blocks: &Vec<Json>)
    ensures
        json::jsons(final(input)@) == flushed(
            assistant_blocks(
                Gathered { items: json::jsons(old(input)@), parts: Seq::empty() },
                json::jsons(blocks@),
            ),
            "assistant"@,
        ).items,
{
    let ghost all = json::jsons(blocks@);
    let ghost start = Gathered { items: json::jsons(input@), parts: Seq::empty() };
    let mut parts: Vec<Json> = Vec::new();
    let mut i: usize = 0;
    assert(all.take(0) =~= Seq::<JsonView>::empty());
    assert(json::jsons(parts@) =~= Seq::<JsonView>::empty());
    while i < blocks.len()
        invariant
            i <= blocks@.len(),
            all == json::jsons(blocks@),
            json::jsons(input@) == assistant_blocks(start, all.take(i as int)).items,
            json::jsons(parts@) == assistant_blocks(start, all.take(i as int)).parts,
        decreases blocks@.len() - i,
    {
        let ghost g = assistant_blocks(start, all.take(i as int));
        assert(g =~= (Gathered { items: json::jsons(input@), parts: json::jsons(parts@) }));
        assert(all.take(i + 1).drop_last() =~= all.take(i as int));
        assert(all.take(i + 1).last() == blocks@[i as int]@);
        add_assistant_block(input, &mut parts, &blocks[i]);
        i = i + 1;
    }
    assert(all.take(all.len() as int) =~= all);
    assert(assistant_blocks(start, all) =~= (Gathered {
        items: json::jsons(input@),
        parts: json::jsons(parts@),
    }));
    flush_message(input, "assistant", &mut parts);
}

fn add_user_message(input: &mut Vec<Json>, blocks: &Vec<Json>, rewrites: &[ReadOffsetRewrite])
    ensures
        json::jsons(final(input)@) == flushed(
            user_blocks(
                Gathered { items: json::jsons(old(input)@), parts: Seq::empty() },
                json::jsons(blocks@),
                read_rewrite::rewrites_view(rewrites@),
            ),
            "user"@,
        ).items,
{
    let ghost all = json::jsons(blocks@);
    let ghost rws = read_rewrite::rewrites_view(rewrites@);
    let ghost start = Gathered { items: json::jsons(input@), parts: Seq::empty() };
    let mut parts: Vec<Json> = Vec::new();
    let mut i: usize = 0;
    assert(all.take(0) =~= Seq::<JsonView>::empty());
    assert(json::jsons(parts@) =~= Seq::<JsonView>::empty());
    while i < blocks.len()
        invariant
            i <= blocks@.len(),
            all == json::jsons(blocks@),
            rws == read_rewrite::rewrites_view(rewrites@),
            json::jsons(input@) == user_blocks(start, all.take(i as int), rws).items,
            json::jsons(parts@) == user_blocks(start, all.take(i as int), rws).parts,
        decreases blocks@.len() - i,
    {
        let ghost g = user_blocks(start, all.take(i as int), rws);
        assert(g =~= (Gathered { items: json::jsons(input@), parts: json::jsons(parts@) }));
        assert(all.take(i + 1).drop_last() =~= all.take(i as int));
        assert(all.take(i + 1).last() == blocks@[i as int]@);
        add_user_block(input, &mut parts, &blocks[i], rewrites);
        i = i + 1;
    }
    assert(all.take(all.len() as int) =~= all);
    assert(user_blocks(start, all, rws) =~= (Gathered {
        items: json::jsons(input@),
        parts: json::jsons(parts@),
    }));
    flush_message(input, "user", &mut parts);
}

fn add_message(input: &mut Vec<Json>, msg: &Json, rewrites: &[ReadOffsetRewrite])
    ensures
        json::jsons(final(input)@) == with_message(
            json::jsons(old(input)@),
            msg@,
            read_rewrite::rewrites_view(rewrites@),
        ),
{
    let role = items::str_or(msg.get_str("role"), "user");
    let nothing = Json::Null;
    let content = match msg.get("content") {
        Some(c) => c,
        None => &nothing,
    };
    if text::same(role, "assistant") {
        add_assistant_message(input, &content_blocks(content));
    } else if text::same(role, "system") || text::same(role, "developer") {
        let flat = flatten_text(content);
        let part = items::text_part("input_text", flat.as_str());
        let mut parts: Vec<Json> = Vec::new();
        parts.push(part);
        assert(json::jsons(parts@) =~= seq![part@]);
        items::add_item(input, items::message("developer", parts));
    } else {
        add_user_message(input, &content_blocks(content), rewrites);
    }
}

/// The `input` items of a body's messages.
pub fn build_input(anthropic: &Json, rewrites: &[ReadOffsetRewrite]) -> (r: Vec<Json>)
    ensures
        json::jsons(r@) == input_view(anthropic@, read_rewrite::rewrites_view(rewrites@)),
{
    let ghost rws = read_rewrite::rewrites_view(rewrites@);
    let mut input: Vec<Json> = Vec::new();
    assert(json::jsons(input@) =~= Seq::<JsonView>::empty());
    let messages = match anthropic.get_array("messages") {
        Some(m) => m,
        None => {
            return input;
        },
    };
    let ghost all = json::jsons(messages@);
    let mut i: usize = 0;
    assert(all.take(0) =~= Seq::<JsonView>::empty());
    while i < messages.len()
        invariant
            i <= messages@.len(),
            all == json::jsons(messages@),
            rws == read_rewrite::rewrites_view(rewrites@),
            json::jsons(input@) == messages_input(all.take(i as int), rws),
        decreases messages@.len() - i,
    {
        assert(all.take(i + 1).drop_last() =~= all.take(i as int));
        assert(all.take(i + 1).last() == messages@[i as int]@);
        add_message(&mut input, &messages[i], rewrites);
        i = i + 1;
    }
    assert(all.take(all.len() as int) =~= all);
    input
}

} // verus!
