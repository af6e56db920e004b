//! Where the text of a request stands: pointers to every string that a model reads.
use crate::json;
use crate::json::{Json, JsonView, Members};
use crate::pointer;
use crate::text;
use vstd::prelude::*;

verus! {

// ---------------------------------------------------------------------------------------------
// Free-form payloads
// ---------------------------------------------------------------------------------------------

/// Pointers to every string under `v`, in order, where `v` itself stands at `prefix`.
pub open spec fn leaf_pointers(v: JsonView, prefix: Seq<char>) -> Seq<Seq<char>>
    decreases v, 0nat,
{
    match v {
        JsonView::Str(_) => seq![prefix],
        JsonView::Array(a) => element_leaves(a, a.len(), prefix),
        JsonView::Object(e) => member_leaves(e, e.len(), prefix),
        _ => Seq::empty(),
    }
}

/// Pointers to every string under the first `n` elements of an array.
pub open spec fn element_leaves(a: Seq<JsonView>, n: nat, prefix: Seq<char>) -> Seq<Seq<char>>
    decreases a, n,
{
    if n == 0 || n > a.len() {
        Seq::empty()
    } else {
        element_leaves(a, (n - 1) as nat, prefix) + leaf_pointers(
            a[n - 1],
            pointer::under_index(prefix, (n - 1) as nat),
        )
    }
}

/// Pointers to every string under the first `n` members of an object.
pub open spec fn member_leaves(e: Members, n: nat, prefix: Seq<char>) -> Seq<Seq<char>>
    decreases e, n,
{
    if n == 0 || n > e.len() {
        Seq::empty()
    } else {
        proof {
            assert(decreases_to!(e => e[n - 1].1));
        }
        member_leaves(e, (n - 1) as nat, prefix) + leaf_pointers(
            e[n - 1].1,
            pointer::under_key(prefix, e[n - 1].0),
        )
    }
}

/// Appends pointers to every string under `value`, which stands at `prefix`.
pub fn string_leaf_pointers(value: &Json, prefix: &str, out: &mut Vec<String>)
    ensures
        text::texts(final(out)@) == text::texts(old(out)@) + leaf_pointers(value@, prefix@),
    decreases value@,
{
    let ghost start = text::texts(out@);
    match value {
        Json::Str(_) => {
            push_text(out, prefix.to_owned());
            assert(text::texts(out@) =~= start + leaf_pointers(value@, prefix@));
        },
        Json::Array(a) => {
            proof {
                json::lemma_array_view(*a);
            }
            let ghost trees = json::jsons(a@);
            let mut i: usize = 0;
            assert(start + element_leaves(trees, 0, prefix@) =~= start);
            while i < a.len()
                invariant
                    i <= a@.len(),
                    trees == json::jsons(a@),
                    value@ == JsonView::Array(trees),
                    text::texts(out@) == start + element_leaves(trees, i as nat, prefix@),
                decreases a@.len() - i,
            {
                assert(a@[i as int]@ == trees[i as int]);
                assert(decreases_to!(value@ => value@->Array_0));
                assert(decreases_to!(value@->Array_0 => trees[i as int]));
                let ghost before = text::texts(out@);
                let p = pointer::index_pointer(prefix, i);
                string_leaf_pointers(&a[i], p.as_str(), out);
                assert(text::texts(out@) =~= start + element_leaves(
                    trees,
                    (i + 1) as nat,
                    prefix@,
                ));
                i = i + 1;
            }
        },
        Json::Object(o) => {
            let ghost e = o@;
            let mut i: usize = 0;
            assert(start + member_leaves(e, 0, prefix@) =~= start);
            while i < o.len()
                invariant
                    i <= e.len(),
                    e == o@,
                    value@ == JsonView::Object(e),
                    text::texts(out@) == start + member_leaves(e, i as nat, prefix@),
                decreases e.len() - i,
            {
                assert(decreases_to!(value@ => value@->Object_0));
                assert(decreases_to!(value@->Object_0 => e[i as int].1));
                let p = pointer::key_pointer(prefix, o.key_at(i));
                string_leaf_pointers(o.value_at(i), p.as_str(), out);
                assert(text::texts(out@) =~= start + member_leaves(e, (i + 1) as nat, prefix@));
                i = i + 1;
            }
        },
        _ => {
            assert(text::texts(out@) =~= start + leaf_pointers(value@, prefix@));
        },
    }
}

/// Appends one pointer.
fn push_text(out: &mut Vec<String>, s: String)
    ensures
        text::texts(final(out)@) == text::texts(old(out)@).push(s@),
{
    out.push(s);
    assert(text::texts(out@) =~= text::texts(old(out)@).push(s@));
}

// ---------------------------------------------------------------------------------------------
// Messages
// ---------------------------------------------------------------------------------------------

/// A pointer one known member further.
pub open spec fn under_field(p: Seq<char>, name: Seq<char>) -> Seq<char> {
    p.push('/') + name
}

fn field_pointer(p: &str, name: &str) -> (r: String)
    ensures
        r@ == under_field(p@, name@),
{
    let mut out = p.to_owned();
    out.push('/');
    out.append(name);
    out
}

/// Whether a block is `{"type": "text", "text": "…"}`.
pub open spec fn is_text_block(block: JsonView) -> bool {
    block.get_str("type"@) == Some("text"@) && block.get_str("text"@) is Some
}

/// The pointer to a text block's text, where the block stands at `prefix`.
pub fn text_block_ptr(block: &Json, prefix: &str) -> (r: Option<String>)
    ensures
        match r {
            Some(p) => is_text_block(block@) && p@ == under_field(prefix@, "text"@),
            None => !is_text_block(block@),
        },
{
    let typed = match block.get_str("type") {
        Some(t) => text::same(t, "text"),
        None => false,
    };
    if typed && block.get_str("text").is_some() {
        Some(field_pointer(prefix, "text"))
    } else {
        None
    }
}

/// Pointers to the texts of the first `n` blocks of a tool's result.
pub open spec fn inner_pointers(bs: Seq<JsonView>, n: nat, prefix: Seq<char>) -> Seq<Seq<char>>
    decreases n,
{
    if n == 0 || n > bs.len() {
        Seq::empty()
    } else {
        let before = inner_pointers(bs, (n - 1) as nat, prefix);
        if is_text_block(bs[n - 1]) {
            before.push(under_field(pointer::under_index(prefix, (n - 1) as nat), "text"@))
        } else {
            before
        }
    }
}

/// Whether a document block holds plain text: its data is a string, and its media type is textual
/// where it has one.
pub open spec fn is_text_document(block: JsonView) -> bool {
    let textual = match pointer::pointee(block, "/source/media_type"@) {
        Some(JsonView::Str(m)) => text::starts_with(m, "text/"@),
        _ => true,
    };
    textual && match pointer::pointee(block, "/source/data"@) {
        Some(JsonView::Str(_)) => true,
        _ => false,
    }
}

/// Pointers to the texts of one block that stands at `prefix`: a text block's text, a tool result's
/// texts, every string of a tool call's input, a plain-text document's data.
pub open spec fn block_pointers(block: JsonView, prefix: Seq<char>) -> Seq<Seq<char>> {
    let kind = block.get_str("type"@);
    if is_text_block(block) {
        seq![under_field(prefix, "text"@)]
    } else if kind == Some("tool_result"@) {
        match block.get("content"@) {
            Some(JsonView::Str(_)) => seq![under_field(prefix, "content"@)],
            Some(JsonView::Array(inner)) => inner_pointers(
                inner,
                inner.len(),
                under_field(prefix, "content"@),
            ),
            _ => Seq::empty(),
        }
    } else if kind == Some("tool_use"@) {
        match block.get("input"@) {
            Some(v) => leaf_pointers(v, under_field(prefix, "input"@)),
            None => Seq::empty(),
        }
    } else if kind == Some("document"@) && is_text_document(block) {
        seq![under_field(under_field(prefix, "source"@), "data"@)]
    } else {
        Seq::empty()
    }
}

/// Pointers to the texts of the first `n` blocks of a message's content.
pub open spec fn blocks_pointers(bs: Seq<JsonView>, n: nat, prefix: Seq<char>) -> Seq<Seq<char>>
    decreases n,
{
    if n == 0 || n > bs.len() {
        Seq::empty()
    } else {
        blocks_pointers(bs, (n - 1) as nat, prefix) + block_pointers(
            bs[n - 1],
            pointer::under_index(prefix, (n - 1) as nat),
        )
    }
}

/// Pointers to the texts of a message's content.
pub open spec fn content_pointers(msg: JsonView, prefix: Seq<char>) -> Seq<Seq<char>> {
    match msg.get("content"@) {
        Some(JsonView::Str(_)) => seq![under_field(prefix, "content"@)],
        Some(JsonView::Array(bs)) => blocks_pointers(
            bs,
            bs.len(),
            under_field(prefix, "content"@),
        ),
        _ => Seq::empty(),
    }
}

/// Whether the arguments of a tool call are a string.
pub open spec fn has_arguments(call: JsonView) -> bool {
    match pointer::pointee(call, "/function/arguments"@) {
        Some(JsonView::Str(_)) => true,
        _ => false,
    }
}

/// Pointers to the arguments of the first `n` tool calls of a message.
pub open spec fn calls_pointers(cs: Seq<JsonView>, n: nat, prefix: Seq<char>) -> Seq<Seq<char>>
    decreases n,
{
    if n == 0 || n > cs.len() {
        Seq::empty()
    } else {
        let before = calls_pointers(cs, (n - 1) as nat, prefix);
        if has_arguments(cs[n - 1]) {
            before.push(
                under_field(
                    under_field(pointer::under_index(prefix, (n - 1) as nat), "function"@),
                    "arguments"@,
                ),
            )
        } else {
            before
        }
    }
}

/// Pointers to the texts of one message: of its content, then of its tool calls.
pub open spec fn message_pointers(msg: JsonView, prefix: Seq<char>) -> Seq<Seq<char>> {
    content_pointers(msg, prefix) + match msg.get_array("tool_calls"@) {
        Some(cs) => calls_pointers(cs, cs.len(), under_field(prefix, "tool_calls"@)),
        None => Seq::empty(),
    }
}

/// Pointers to the texts of the first `n` messages.
pub open spec fn messages_pointers(ms: Seq<JsonView>, n: nat) -> Seq<Seq<char>>
    decreases n,
{
    if n == 0 || n > ms.len() {
        Seq::empty()
    } else {
        messages_pointers(ms, (n - 1) as nat) + message_pointers(
            ms[n - 1],
            pointer::under_index("/messages"@, (n - 1) as nat),
        )
    }
}

fn string_at(v: &Json, p: &str) -> (r: bool)
    ensures
        r == match pointer::pointee(v@, p@) {
            Some(JsonView::Str(_)) => true,
            _ => false,
        },
{
    match pointer::find(v, p) {
        Some(j) => j.as_str().is_some(),
        None => false,
    }
}

fn text_document(block: &Json) -> (r: bool)
    ensures
        r == is_text_document(block@),
{
    let textual = match pointer::find(block, "/source/media_type") {
        Some(m) => match m.as_str() {
            Some(s) => text::has_prefix(s, "text/"),
            None => true,
        },
        None => true,
    };
    textual && string_at(block, "/source/data")
}

fn push_inner_pointers(inner: &Vec<Json>, prefix: &str, out: &mut Vec<String>)
    ensures
        text::texts(final(out)@) == text::texts(old(out)@) + inner_pointers(
            json::jsons(inner@),
            inner@.len(),
            prefix@,
        ),
{
    let ghost start = text::texts(out@);
    let ghost trees = json::jsons(inner@);
    let mut i: usize = 0;
    assert(start + inner_pointers(trees, 0, prefix@) =~= start);
    while i < inner.len()
        invariant
            i <= inner@.len(),
            trees == json::jsons(inner@),
            text::texts(out@) == start + inner_pointers(trees, i as nat, prefix@),
        decreases inner@.len() - i,
    {
        assert(trees[i as int] == inner@[i as int]@);
        let at = pointer::index_pointer(prefix, i);
        match text_block_ptr(&inner[i], at.as_str()) {
            Some(p) => push_text(out, p),
            None => {},
        }
        assert(text::texts(out@) =~= start + inner_pointers(trees, (i + 1) as nat, prefix@));
        i = i + 1;
    }
}

fn push_block_pointers(block: &Json, prefix: &str, out: &mut Vec<String>)
    ensures
        text::texts(final(out)@) == text::texts(old(out)@) + block_pointers(block@, prefix@),
{
    let ghost start = text::texts(out@);
    assert(start + Seq::<Seq<char>>::empty() =~= start);
    match text_block_ptr(block, prefix) {
        Some(p) => {
            push_text(out, p);
            assert(text::texts(out@) =~= start + block_pointers(block@, prefix@));
            return;
        },
        None => {},
    }
    let kind = match block.get_str("type") {
        Some(k) => k,
        None => {
            return;
        },
    };
    if text::same(kind, "tool_result") {
        match block.get("content") {
            Some(c) => {
                if c.as_str().is_some() {
                    push_text(out, field_pointer(prefix, "content"));
                    assert(text::texts(out@) =~= start + block_pointers(block@, prefix@));
                } else {
                    match c.as_array() {
                        Some(inner) => {
                            let at = field_pointer(prefix, "content");
                            push_inner_pointers(inner, at.as_str(), out);
                        },
                        None => {},
                    }
                }
            },
            None => {},
        }
    } else if text::same(kind, "tool_use") {
        match block.get("input") {
            Some(input) => {
                let at = field_pointer(prefix, "input");
                string_leaf_pointers(input, at.as_str(), out);
            },
            None => {},
        }
    } else if text::same(kind, "document") && text_document(block) {
        let source = field_pointer(prefix, "source");
        push_text(out, field_pointer(source.as_str(), "data"));
        assert(text::texts(out@) =~= start + block_pointers(block@, prefix@));
    }
}

fn push_content_pointers(msg: &Json, prefix: &str, out: &mut Vec<String>)
    ensures
        text::texts(final(out)@) == text::texts(old(out)@) + content_pointers(msg@, prefix@),
{
    let ghost start = text::texts(out@);
    assert(start + Seq::<Seq<char>>::empty() =~= start);
    let content = match msg.get("content") {
        Some(c) => c,
        None => {
            return;
        },
    };
    let at = field_pointer(prefix, "content");
    if content.as_str().is_some() {
        push_text(out, at);
        assert(text::texts(out@) =~= start + content_pointers(msg@, prefix@));
        return;
    }
    let blocks = match content.as_array() {
        Some(b) => b,
        None => {
            return;
        },
    };
    let ghost trees = json::jsons(blocks@);
    let mut i: usize = 0;
    assert(start + blocks_pointers(trees, 0, at@) =~= start);
    while i < blocks.len()
        invariant
            i <= blocks@.len(),
            trees == json::jsons(blocks@),
            text::texts(out@) == start + blocks_pointers(trees, i as nat, at@),
        decreases blocks@.len() - i,
    {
        assert(trees[i as int] == blocks@[i as int]@);
        let p = pointer::index_pointer(at.as_str(), i);
        push_block_pointers(&blocks[i], p.as_str(), out);
        assert(text::texts(out@) =~= start + blocks_pointers(trees, (i + 1) as nat, at@));
        i = i + 1;
    }
}

fn push_call_pointers(calls: &Vec<Json>, prefix: &str, out: &mut Vec<String>)
    ensures
        text::texts(final(out)@) == text::texts(old(out)@) + calls_pointers(
            json::jsons(calls@),
            calls@.len(),
            prefix@,
        ),
{
    let ghost start = text::texts(out@);
    let ghost trees = json::jsons(calls@);
    let mut i: usize = 0;
    assert(start + calls_pointers(trees, 0, prefix@) =~= start);
    while i < calls.len()
        invariant
            i <= calls@.len(),
            trees == json::jsons(calls@),
            text::texts(out@) == start + calls_pointers(trees, i as nat, prefix@),
        decreases calls@.len() - i,
    {
        assert(trees[i as int] == calls@[i as int]@);
        if string_at(&calls[i], "/function/arguments") {
            let at = pointer::index_pointer(prefix, i);
            let function = field_pointer(at.as_str(), "function");
            push_text(out, field_pointer(function.as_str(), "arguments"));
        }
        assert(text::texts(out@) =~= start + calls_pointers(trees, (i + 1) as nat, prefix@));
        i = i + 1;
    }
}

fn push_message_pointers(msg: &Json, prefix: &str, out: &mut Vec<String>)
    ensures
        text::texts(final(out)@) == text::texts(old(out)@) + message_pointers(msg@, prefix@),
{
    let ghost start = text::texts(out@);
    push_content_pointers(msg, prefix, out);
    let ghost mid = text::texts(out@);
    match msg.get_array("tool_calls") {
        Some(calls) => {
            let at = field_pointer(prefix, "tool_calls");
            push_call_pointers(calls, at.as_str(), out);
        },
        None => {
            assert(mid + Seq::<Seq<char>>::empty() =~= mid);
        },
    }
    assert(text::texts(out@) =~= start + message_pointers(msg@, prefix@));
}

/// Appends pointers to every text segment under a `messages` array; anything but an array has none.
pub fn message_text_pointers(messages: &Json, out: &mut Vec<String>)
    ensures
        text::texts(final(out)@) == text::texts(old(out)@) + match messages@.as_array() {
            Some(ms) => messages_pointers(ms, ms.len()),
            None => Seq::empty(),
        },
{
    let ghost start = text::texts(out@);
    let list = match messages.as_array() {
        Some(m) => m,
        None => {
            assert(start + Seq::<Seq<char>>::empty() =~= start);
            return;
        },
    };
    let ghost trees = json::jsons(list@);
    let mut i: usize = 0;
    assert(start + messages_pointers(trees, 0) =~= start);
    while i < list.len()
        invariant
            i <= list@.len(),
            trees == json::jsons(list@),
            text::texts(out@) == start + messages_pointers(trees, i as nat),
        decreases list@.len() - i,
    {
        assert(trees[i as int] == list@[i as int]@);
        let p = pointer::index_pointer("/messages", i);
        push_message_pointers(&list[i], p.as_str(), out);
        assert(text::texts(out@) =~= start + messages_pointers(trees, (i + 1) as nat));
        i = i + 1;
    }
}

} // verus!
