//! What a conversation keeps on its way into a Responses request.
use crate::codex::input;
use crate::codex::input::Gathered;
use crate::codex::items;
use crate::codex::read_rewrite;
use crate::codex::read_rewrite::RewriteView;
use crate::json;
use crate::json::JsonView;
use crate::text;
use vstd::prelude::*;

verus! {

// ---------------------------------------------------------------------------------------------
// What is said
// ---------------------------------------------------------------------------------------------

/// One thing that is said in a conversation.
pub enum Said {
    /// A text, with the role of the one who says it and the kind of part that carries it.
    Text { role: Seq<char>, kind: Seq<char>, text: Seq<char> },
    /// An image of a user.
    Image { role: Seq<char>, address: Seq<char> },
    /// A call of a tool.
    Call { id: Seq<char>, name: Seq<char>, arguments: Seq<char> },
    /// The answer to a call.
    Answer { id: Seq<char>, output: Seq<char> },
}

/// What one part of a message item says: its text, or the address of its image.
pub open spec fn part_says(role: Seq<char>, part: JsonView) -> Seq<Said> {
    match (part.get_str("type"@), part.get_str("text"@), part.get_str("image_url"@)) {
        (Some(kind), Some(text), _) => seq![Said::Text { role, kind, text }],
        (Some(kind), None, Some(address)) => if kind == "input_image"@ && part.get("detail"@) == Some(
            JsonView::Null,
        ) {
            seq![Said::Image { role, address }]
        } else {
            Seq::empty()
        },
        _ => Seq::empty(),
    }
}

pub open spec fn parts_say(role: Seq<char>, parts: Seq<JsonView>) -> Seq<Said>
    decreases parts.len(),
{
    if parts.len() == 0 {
        Seq::empty()
    } else {
        parts_say(role, parts.drop_last()) + part_says(role, parts.last())
    }
}

/// What one item of a request says.
pub open spec fn item_says(item: JsonView) -> Seq<Said> {
    match item.get_str("type"@) {
        Some(kind) => if kind == "message"@ {
            match (item.get_str("role"@), item.get_array("content"@)) {
                (Some(role), Some(parts)) => parts_say(role, parts),
                _ => Seq::empty(),
            }
        } else if kind == "function_call"@ {
            match (item.get_str("call_id"@), item.get_str("name"@), item.get_str("arguments"@)) {
                (Some(id), Some(name), Some(arguments)) => seq![Said::Call { id, name, arguments }],
                _ => Seq::empty(),
            }
        } else if kind == "function_call_output"@ {
            match (item.get_str("call_id"@), item.get_str("output"@)) {
                (Some(id), Some(output)) => seq![Said::Answer { id, output }],
                _ => Seq::empty(),
            }
        } else {
            Seq::empty()
        },
        None => Seq::empty(),
    }
}

/// What the items of a request say, in order.
pub open spec fn items_say(its: Seq<JsonView>) -> Seq<Said>
    decreases its.len(),
{
    if its.len() == 0 {
        Seq::empty()
    } else {
        items_say(its.drop_last()) + item_says(its.last())
    }
}

/// A text, or nothing.
pub open spec fn or_nothing(s: Option<Seq<char>>) -> Seq<char> {
    match s {
        Some(t) => t,
        None => Seq::empty(),
    }
}

/// What one block of a user says: a text, an image that has an address, or the answer to a call.
pub open spec fn user_says(b: JsonView, rewrites: Seq<RewriteView>) -> Seq<Said> {
    match b.get_str("type"@) {
        Some(kind) => if kind == "text"@ {
            match b.get_str("text"@) {
                Some(text) => seq![Said::Text { role: "user"@, kind: "input_text"@, text }],
                None => Seq::empty(),
            }
        } else if kind == "image"@ {
            match input::image_address(b) {
                Some(address) => seq![Said::Image { role: "user"@, address }],
                None => Seq::empty(),
            }
        } else if kind == "tool_result"@ {
            seq![
                Said::Answer {
                    id: or_nothing(b.get_str("tool_use_id"@)),
                    output: input::answer_text(b, rewrites),
                },
            ]
        } else {
            Seq::empty()
        },
        None => Seq::empty(),
    }
}

/// What one block of an assistant says: a text, or a call of a tool.
pub open spec fn assistant_says(b: JsonView) -> Seq<Said> {
    match b.get_str("type"@) {
        Some(kind) => if kind == "text"@ {
            match b.get_str("text"@) {
                Some(text) => seq![Said::Text { role: "assistant"@, kind: "output_text"@, text }],
                None => Seq::empty(),
            }
        } else if kind == "tool_use"@ {
            seq![
                Said::Call {
                    id: or_nothing(b.get_str("id"@)),
                    name: or_nothing(b.get_str("name"@)),
                    arguments: input::arguments_text(b),
                },
            ]
        } else {
            Seq::empty()
        },
        None => Seq::empty(),
    }
}

pub open spec fn blocks_say(bs: Seq<JsonView>, says: spec_fn(JsonView) -> Seq<Said>) -> Seq<Said>
    decreases bs.len(),
{
    if bs.len() == 0 {
        Seq::empty()
    } else {
        blocks_say(bs.drop_last(), says) + says(bs.last())
    }
}

/// What a message's content says: a bare text is said as it stands, a list block by block.
pub open spec fn content_says(
    content: Option<JsonView>,
    says: spec_fn(JsonView) -> Seq<Said>,
    role: Seq<char>,
    kind: Seq<char>,
) -> Seq<Said> {
    match content {
        Some(JsonView::Str(text)) => seq![Said::Text { role, kind, text }],
        Some(JsonView::Array(bs)) => blocks_say(bs, says),
        _ => Seq::empty(),
    }
}

/// What one message says. A message of the system is one text of the developer; whoever is neither
/// that nor the assistant is the user.
pub open spec fn message_says(msg: JsonView, rewrites: Seq<RewriteView>) -> Seq<Said> {
    let role = msg.get_str("role"@);
    let content = msg.get("content"@);
    if role == Some("assistant"@) {
        content_says(
            content,
            |b: JsonView| assistant_says(b),
            "assistant"@,
            "output_text"@,
        )
    } else if role == Some("system"@) || role == Some("developer"@) {
        seq![
            Said::Text {
                role: "developer"@,
                kind: "input_text"@,
                text: match content {
                    Some(c) => input::flat_text(c),
                    None => Seq::empty(),
                },
            },
        ]
    } else {
        content_says(content, |b: JsonView| user_says(b, rewrites), "user"@, "input_text"@)
    }
}

/// What the messages say, in order.
pub open spec fn conversation(ms: Seq<JsonView>, rewrites: Seq<RewriteView>) -> Seq<Said>
    decreases ms.len(),
{
    if ms.len() == 0 {
        Seq::empty()
    } else {
        conversation(ms.drop_last(), rewrites) + message_says(ms.last(), rewrites)
    }
}

// ---------------------------------------------------------------------------------------------
// Items
// ---------------------------------------------------------------------------------------------

/// A text part carries its kind and its text, and an image part its address, with no tier.
proof fn lemma_part_says(role: Seq<char>, kind: Seq<char>, text: Seq<char>)
    ensures
        part_says(role, items::text_part_view(kind, text)) == seq![Said::Text { role, kind, text }],
        part_says(role, items::image_part_view(text)) == seq![Said::Image { role, address: text }],
{
    items::lemma_member_names();
    reveal_with_fuel(json::lookup, 5);
    reveal_strlit("text");
    reveal_strlit("image_url");
    reveal_strlit("detail");
    reveal_strlit("type");
    assert("text"@.len() == 4 && "image_url"@.len() == 9 && "detail"@.len() == 6);
    assert("text"@[1] == 'e' && "type"@[1] == 'y');
    let p = items::text_part_view(kind, text)->Object_0;
    assert(p.last().0 == "text"@);
    assert(p.drop_last().last().0 == "type"@);
    assert(p.drop_last().drop_last() =~= json::Members::empty());
    let q = items::image_part_view(text)->Object_0;
    assert(q.last().0 == "detail"@);
    assert(q.drop_last().last().0 == "image_url"@);
    assert(q.drop_last().drop_last().last().0 == "type"@);
    assert(q.drop_last().drop_last().drop_last() =~= json::Members::empty());
    assert(items::image_part_view(text).get_str("text"@) is None);
}

proof fn lemma_item_says(
    role: Seq<char>,
    parts: Seq<JsonView>,
    id: Seq<char>,
    name: Seq<char>,
    s: Seq<char>,
)
    ensures
        item_says(items::message_view(role, parts)) == parts_say(role, parts),
        item_says(items::function_call_view(id, name, s)) == seq![
            Said::Call { id, name, arguments: s },
        ],
        item_says(items::function_call_output_view(id, s)) == seq![Said::Answer { id, output: s }],
        items::message_view(role, parts).get_str("type"@) == Some("message"@),
        items::function_call_view(id, name, s).get_str("type"@) == Some("function_call"@),
        items::function_call_output_view(id, s).get_str("type"@) == Some("function_call_output"@),
        "message"@ != "function_call"@,
        "message"@ != "function_call_output"@,
{
    items::lemma_member_names();
    reveal_strlit("message");
    reveal_strlit("function_call");
    reveal_strlit("function_call_output");
    assert("message"@.len() == 7 && "function_call"@.len() == 13 && "function_call_output"@.len()
        == 20);
    reveal_with_fuel(json::lookup, 6);
    let m = items::message_view(role, parts)->Object_0;
    assert(m.last().0 == "content"@);
    assert(m.drop_last().last().0 == "role"@);
    assert(m.drop_last().drop_last().last().0 == "type"@);
    let c = items::function_call_view(id, name, s)->Object_0;
    assert(c.last().0 == "arguments"@);
    assert(c.drop_last().last().0 == "name"@);
    assert(c.drop_last().drop_last().last().0 == "call_id"@);
    assert(c.drop_last().drop_last().drop_last().last().0 == "type"@);
    let o = items::function_call_output_view(id, s)->Object_0;
    assert(o.last().0 == "output"@);
    assert(o.drop_last().last().0 == "call_id"@);
    assert(o.drop_last().drop_last().last().0 == "type"@);
}

proof fn lemma_items_push(its: Seq<JsonView>, item: JsonView)
    ensures
        items_say(its.push(item)) == items_say(its) + item_says(item),
{
    assert(its.push(item).drop_last() =~= its);
}

proof fn lemma_parts_push(role: Seq<char>, parts: Seq<JsonView>, part: JsonView)
    ensures
        parts_say(role, parts.push(part)) == parts_say(role, parts) + part_says(role, part),
{
    assert(parts.push(part).drop_last() =~= parts);
}

/// What the items and the waiting parts say.
spec fn gathered_says(g: Gathered, role: Seq<char>) -> Seq<Said> {
    items_say(g.items) + parts_say(role, g.parts)
}

proof fn lemma_flushing_says(g: Gathered, role: Seq<char>)
    ensures
        items_say(input::flushed(g, role).items) == gathered_says(g, role),
        input::flushed(g, role).parts.len() == 0,
{
    let none = Seq::<char>::empty();
    lemma_item_says(role, g.parts, none, none, none);
    lemma_items_push(g.items, items::message_view(role, g.parts));
    if g.parts.len() == 0 {
        assert(parts_say(role, g.parts) =~= Seq::<Said>::empty());
        assert(gathered_says(g, role) =~= items_say(g.items));
    }
}

proof fn lemma_user_block_says(g: Gathered, b: JsonView, rewrites: Seq<RewriteView>)
    ensures
        gathered_says(input::user_block(g, b, rewrites), "user"@) == gathered_says(g, "user"@)
            + user_says(b, rewrites),
{
    let role = "user"@;
    let before = gathered_says(g, role);
    let after = input::user_block(g, b, rewrites);
    let none = Seq::<char>::empty();
    reveal_strlit("text");
    reveal_strlit("image");
    reveal_strlit("tool_result");
    assert("text"@.len() == 4 && "image"@.len() == 5 && "tool_result"@.len() == 11);
    assert(before + Seq::<Said>::empty() =~= before);
    let kind = b.get_str("type"@);
    if kind == Some("text"@) && b.get_str("text"@) is Some {
        let t = b.get_str("text"@)->0;
        let part = items::text_part_view("input_text"@, t);
        lemma_part_says(role, "input_text"@, t);
        lemma_parts_push(role, g.parts, part);
        assert(gathered_says(after, role) =~= before + user_says(b, rewrites));
    } else if kind == Some("image"@) && input::image_address(b) is Some {
        let url = input::image_address(b)->0;
        lemma_part_says(role, none, url);
        lemma_parts_push(role, g.parts, items::image_part_view(url));
        assert(gathered_says(after, role) =~= before + user_says(b, rewrites));
    } else if kind == Some("tool_result"@) {
        lemma_flushing_says(g, role);
        let id = or_nothing(b.get_str("tool_use_id"@));
        let output = input::answer_text(b, rewrites);
        lemma_item_says(role, g.parts, id, none, output);
        lemma_items_push(
            input::flushed(g, role).items,
            items::function_call_output_view(id, output),
        );
        assert(parts_say(role, after.parts) =~= Seq::<Said>::empty());
        assert(gathered_says(after, role) =~= before + user_says(b, rewrites));
    }
}

proof fn lemma_assistant_block_says(g: Gathered, b: JsonView)
    ensures
        gathered_says(input::assistant_block(g, b), "assistant"@) == gathered_says(
            g,
            "assistant"@,
        ) + assistant_says(b),
{
    let role = "assistant"@;
    let before = gathered_says(g, role);
    let after = input::assistant_block(g, b);
    let none = Seq::<char>::empty();
    reveal_strlit("text");
    reveal_strlit("tool_use");
    assert("text"@.len() == 4 && "tool_use"@.len() == 8);
    assert(before + Seq::<Said>::empty() =~= before);
    let kind = b.get_str("type"@);
    if kind == Some("text"@) && b.get_str("text"@) is Some {
        let t = b.get_str("text"@)->0;
        lemma_part_says(role, "output_text"@, t);
        lemma_parts_push(role, g.parts, items::text_part_view("output_text"@, t));
        assert(gathered_says(after, role) =~= before + assistant_says(b));
    } else if kind == Some("tool_use"@) {
        lemma_flushing_says(g, role);
        let id = or_nothing(b.get_str("id"@));
        let name = or_nothing(b.get_str("name"@));
        let arguments = input::arguments_text(b);
        lemma_item_says(role, g.parts, id, name, arguments);
        lemma_items_push(
            input::flushed(g, role).items,
            items::function_call_view(id, name, arguments),
        );
        assert(parts_say(role, after.parts) =~= Seq::<Said>::empty());
        assert(gathered_says(after, role) =~= before + assistant_says(b));
    }
}

proof fn lemma_user_blocks_say(g: Gathered, bs: Seq<JsonView>, rewrites: Seq<RewriteView>)
    ensures
        gathered_says(input::user_blocks(g, bs, rewrites), "user"@) == gathered_says(g, "user"@)
            + blocks_say(bs, |b: JsonView| user_says(b, rewrites)),
    decreases bs.len(),
{
    let says = |b: JsonView| user_says(b, rewrites);
    let start = gathered_says(g, "user"@);
    if bs.len() == 0 {
        assert(start + Seq::<Said>::empty() =~= start);
    } else {
        let most = bs.drop_last();
        lemma_user_blocks_say(g, most, rewrites);
        lemma_user_block_says(input::user_blocks(g, most, rewrites), bs.last(), rewrites);
        assert((start + blocks_say(most, says)) + says(bs.last()) =~= start + (blocks_say(most, says)
            + says(bs.last())));
    }
}

proof fn lemma_assistant_blocks_say(g: Gathered, bs: Seq<JsonView>)
    ensures
        gathered_says(input::assistant_blocks(g, bs), "assistant"@) == gathered_says(
            g,
            "assistant"@,
        ) + blocks_say(bs, |b: JsonView| assistant_says(b)),
    decreases bs.len(),
{
    let says = |b: JsonView| assistant_says(b);
    let start = gathered_says(g, "assistant"@);
    if bs.len() == 0 {
        assert(start + Seq::<Said>::empty() =~= start);
    } else {
        let most = bs.drop_last();
        lemma_assistant_blocks_say(g, most);
        lemma_assistant_block_says(input::assistant_blocks(g, most), bs.last());
        assert((start + blocks_say(most, says)) + says(bs.last()) =~= start + (blocks_say(most, says)
            + says(bs.last())));
    }
}

/// A bare text is said like a block that holds it.
proof fn lemma_bare_text(s: Seq<char>, rewrites: Seq<RewriteView>)
    ensures
        user_says(items::text_part_view("text"@, s), rewrites) == seq![
            Said::Text { role: "user"@, kind: "input_text"@, text: s },
        ],
        assistant_says(items::text_part_view("text"@, s)) == seq![
            Said::Text { role: "assistant"@, kind: "output_text"@, text: s },
        ],
{
    items::lemma_member_names();
    reveal_with_fuel(json::lookup, 4);
    let p = items::text_part_view("text"@, s)->Object_0;
    assert(p.last().0 == "text"@);
    assert(p.drop_last().last().0 == "type"@);
}

proof fn lemma_message_says(before: Seq<JsonView>, msg: JsonView, rewrites: Seq<RewriteView>)
    ensures
        items_say(input::with_message(before, msg, rewrites)) == items_say(before) + message_says(
            msg,
            rewrites,
        ),
{
    let role = items::text_or(msg.get_str("role"@), "user"@);
    let content = match msg.get("content"@) {
        Some(c) => c,
        None => JsonView::Null,
    };
    let start = Gathered { items: before, parts: Seq::empty() };
    let bs = input::blocks_of(content);
    reveal_strlit("user");
    reveal_strlit("assistant");
    reveal_strlit("system");
    reveal_strlit("developer");
    assert("user"@.len() == 4 && "assistant"@.len() == 9 && "system"@.len() == 6
        && "developer"@.len() == 9);
    assert("assistant"@[0] == 'a' && "developer"@[0] == 'd');
    let none = Seq::<Said>::empty();
    assert(parts_say("user"@, start.parts) =~= none);
    assert(parts_say("assistant"@, start.parts) =~= none);
    assert(gathered_says(start, "user"@) =~= items_say(before));
    assert(gathered_says(start, "assistant"@) =~= items_say(before));
    assert(items_say(before) + none =~= items_say(before));
    if content is Str {
        lemma_bare_text(content->Str_0, rewrites);
        assert(bs.drop_last() =~= Seq::<JsonView>::empty());
    }
    if role == "assistant"@ {
        let says = |b: JsonView| assistant_says(b);
        lemma_assistant_blocks_say(start, bs);
        lemma_flushing_says(input::assistant_blocks(start, bs), "assistant"@);
        if content is Str {
            assert(blocks_say(bs.drop_last(), says) =~= none);
            assert(blocks_say(bs, says) =~= none + says(bs.last()));
        } else if !(content is Array) {
            assert(blocks_say(bs, says) =~= none);
        }
        assert(blocks_say(bs, says) =~= message_says(msg, rewrites));
    } else if role == "system"@ || role == "developer"@ {
        let text = input::flat_text(content);
        let part = items::text_part_view("input_text"@, text);
        let item = items::message_view("developer"@, seq![part]);
        lemma_part_says("developer"@, "input_text"@, text);
        lemma_item_says("developer"@, seq![part], text, text, text);
        lemma_parts_push("developer"@, Seq::empty(), part);
        assert(Seq::<JsonView>::empty().push(part) =~= seq![part]);
        assert(parts_say("developer"@, Seq::empty()) =~= none);
        lemma_items_push(before, item);
        assert(item_says(item) =~= message_says(msg, rewrites));
    } else {
        let says = |b: JsonView| user_says(b, rewrites);
        lemma_user_blocks_say(start, bs, rewrites);
        lemma_flushing_says(input::user_blocks(start, bs, rewrites), "user"@);
        if content is Str {
            assert(blocks_say(bs.drop_last(), says) =~= none);
            assert(blocks_say(bs, says) =~= none + says(bs.last()));
        } else if !(content is Array) {
            assert(blocks_say(bs, says) =~= none);
        }
        assert(blocks_say(bs, says) =~= message_says(msg, rewrites));
    }
}

// ---------------------------------------------------------------------------------------------
// The laws
// ---------------------------------------------------------------------------------------------

/// Nothing that is said is lost, added or moved: the texts, images, calls and answers in the items of
/// a request are those of the messages, one for one and in order, each said by whom it was said.
pub proof fn law_the_request_says_what_the_messages_say(
    ms: Seq<JsonView>,
    rewrites: Seq<RewriteView>,
)
    ensures
        items_say(input::messages_input(ms, rewrites)) == conversation(ms, rewrites),
    decreases ms.len(),
{
    if ms.len() > 0 {
        law_the_request_says_what_the_messages_say(ms.drop_last(), rewrites);
        lemma_message_says(
            input::messages_input(ms.drop_last(), rewrites),
            ms.last(),
            rewrites,
        );
    }
}

/// The items of a request are those of the body's list of messages; without one there are none.
pub proof fn law_the_input_is_the_messages(body: JsonView, rewrites: Seq<RewriteView>)
    ensures
        body.get_array("messages"@) is None ==> input::input_view(body, rewrites).len() == 0,
        body.get_array("messages"@) matches Some(ms) ==> items_say(
            input::input_view(body, rewrites),
        ) == conversation(ms, rewrites),
{
    match body.get_array("messages"@) {
        Some(ms) => {
            law_the_request_says_what_the_messages_say(ms, rewrites);
        },
        None => {},
    }
}

/// An item that is a message.
pub open spec fn is_message(item: JsonView) -> bool {
    item.get_str("type"@) == Some("message"@)
}

/// Every message among the items from `from` on says something, and no two of them stand side by
/// side.
pub open spec fn messages_stand_alone(its: Seq<JsonView>, from: int) -> bool {
    &&& forall|i: int|
        from <= i < its.len() && is_message(#[trigger] its[i]) ==> its[i].get_array(
            "content"@,
        ) is Some && its[i].get_array("content"@)->0.len() > 0
    &&& forall|i: int, j: int|
        #![trigger its[i], its[j]]
        from <= i < its.len() && j == i + 1 && j < its.len() && is_message(its[i]) ==> !is_message(
            its[j],
        )
}

/// While a message is read: parts wait only where a message item could follow.
spec fn well_gathered(g: Gathered, from: int) -> bool {
    &&& 0 <= from <= g.items.len()
    &&& messages_stand_alone(g.items, from)
    &&& g.items.len() > from ==> !is_message(g.items.last())
}

proof fn lemma_alone_push(its: Seq<JsonView>, from: int, item: JsonView)
    requires
        0 <= from <= its.len(),
        messages_stand_alone(its, from),
        is_message(item) ==> item.get_array("content"@) is Some && item.get_array(
            "content"@,
        )->0.len() > 0 && (its.len() > from ==> !is_message(its.last())),
    ensures
        messages_stand_alone(its.push(item), from),
{
    let all = its.push(item);
    assert forall|i: int| from <= i < all.len() && is_message(#[trigger] all[i]) implies all[i].get_array(
        "content"@,
    ) is Some && all[i].get_array("content"@)->0.len() > 0 by {
        if i < its.len() {
            assert(all[i] == its[i]);
        }
    }
    assert forall|i: int, j: int|
        #![trigger all[i], all[j]]
        from <= i < all.len() && j == i + 1 && j < all.len() && is_message(all[i]) implies !is_message(
        all[j],
    ) by {
        if j < its.len() {
            assert(all[i] == its[i] && all[j] == its[j]);
        } else {
            assert(all[i] == its.last());
        }
    }
}

proof fn lemma_flushing_stands_alone(g: Gathered, role: Seq<char>, from: int)
    requires
        well_gathered(g, from),
    ensures
        messages_stand_alone(input::flushed(g, role).items, from),
        input::flushed(g, role).items.len() >= from,
{
    let none = Seq::<char>::empty();
    if g.parts.len() > 0 {
        let item = items::message_view(role, g.parts);
        lemma_item_says(role, g.parts, none, none, none);
        reveal_with_fuel(json::lookup, 2);
        assert(item->Object_0.last().0 == "content"@);
        lemma_alone_push(g.items, from, item);
    }
}

proof fn lemma_blocks_stand_alone(
    g: Gathered,
    bs: Seq<JsonView>,
    rewrites: Seq<RewriteView>,
    from: int,
)
    requires
        well_gathered(g, from),
    ensures
        well_gathered(input::user_blocks(g, bs, rewrites), from),
        well_gathered(input::assistant_blocks(g, bs), from),
    decreases bs.len(),
{
    if bs.len() > 0 {
        let most = bs.drop_last();
        let b = bs.last();
        lemma_blocks_stand_alone(g, most, rewrites, from);
        let none = Seq::<char>::empty();
        let u = input::user_blocks(g, most, rewrites);
        let uf = input::flushed(u, "user"@);
        lemma_flushing_stands_alone(u, "user"@, from);
        let id = or_nothing(b.get_str("tool_use_id"@));
        let answer = items::function_call_output_view(id, input::answer_text(b, rewrites));
        lemma_item_says(none, Seq::empty(), id, none, input::answer_text(b, rewrites));
        lemma_alone_push(uf.items, from, answer);
        let a = input::assistant_blocks(g, most);
        let af = input::flushed(a, "assistant"@);
        lemma_flushing_stands_alone(a, "assistant"@, from);
        let cid = or_nothing(b.get_str("id"@));
        let name = or_nothing(b.get_str("name"@));
        let call = items::function_call_view(cid, name, input::arguments_text(b));
        lemma_item_says(none, Seq::empty(), cid, name, input::arguments_text(b));
        lemma_alone_push(af.items, from, call);
        assert(uf.items.push(answer).last() == answer);
        assert(af.items.push(call).last() == call);
    }
}

/// What belongs together stays together: the items of one message come after those that were there,
/// none of which changes; each message item among them holds a part at least, and two never stand side
/// by side. So a message without calls or answers is one item, or none where it says nothing.
pub proof fn law_one_message_gives_whole_items(
    before: Seq<JsonView>,
    msg: JsonView,
    rewrites: Seq<RewriteView>,
)
    ensures
        ({
            let after = input::with_message(before, msg, rewrites);
            &&& after.len() >= before.len()
            &&& after.take(before.len() as int) == before
            &&& messages_stand_alone(after, before.len() as int)
        }),
{
    let start = Gathered { items: before, parts: Seq::empty() };
    let from = before.len() as int;
    let content = match msg.get("content"@) {
        Some(c) => c,
        None => JsonView::Null,
    };
    let bs = input::blocks_of(content);
    lemma_blocks_stand_alone(start, bs, rewrites, from);
    lemma_blocks_keep_items(start, bs, rewrites);
    lemma_flushing_stands_alone(input::user_blocks(start, bs, rewrites), "user"@, from);
    lemma_flushing_stands_alone(input::assistant_blocks(start, bs), "assistant"@, from);
    let part = items::text_part_view("input_text"@, input::flat_text(content));
    let item = items::message_view("developer"@, seq![part]);
    reveal_with_fuel(json::lookup, 2);
    assert(item->Object_0.last().0 == "content"@);
    lemma_alone_push(before, from, item);
    assert(before.push(item).take(from) =~= before);
    let u = input::user_blocks(start, bs, rewrites);
    let a = input::assistant_blocks(start, bs);
    assert(input::flushed(u, "user"@).items.take(from) =~= before) by {
        assert(u.items.take(from) == before);
        assert(u.items.push(items::message_view("user"@, u.parts)).take(from) =~= u.items.take(from));
    }
    assert(input::flushed(a, "assistant"@).items.take(from) =~= before) by {
        assert(a.items.take(from) == before);
        assert(a.items.push(items::message_view("assistant"@, a.parts)).take(from) =~= a.items.take(
            from,
        ));
    }
}

proof fn lemma_blocks_keep_items(g: Gathered, bs: Seq<JsonView>, rewrites: Seq<RewriteView>)
    ensures
        input::user_blocks(g, bs, rewrites).items.len() >= g.items.len(),
        input::user_blocks(g, bs, rewrites).items.take(g.items.len() as int) == g.items,
        input::assistant_blocks(g, bs).items.len() >= g.items.len(),
        input::assistant_blocks(g, bs).items.take(g.items.len() as int) == g.items,
    decreases bs.len(),
{
    let n = g.items.len() as int;
    if bs.len() == 0 {
        assert(g.items.take(n) =~= g.items);
    } else {
        let most = bs.drop_last();
        lemma_blocks_keep_items(g, most, rewrites);
        let u = input::user_blocks(g, most, rewrites);
        let a = input::assistant_blocks(g, most);
        assert(input::user_blocks(g, bs, rewrites).items.take(n) =~= u.items.take(n));
        assert(input::assistant_blocks(g, bs).items.take(n) =~= a.items.take(n));
    }
}

// ---------------------------------------------------------------------------------------------
// The contents
// ---------------------------------------------------------------------------------------------

/// An image keeps its address: data with its media type becomes a data address that holds both, an
/// address stays as it is, and what has neither has none.
pub proof fn law_images_keep_their_address(block: JsonView, source: JsonView)
    requires
        block.get("source"@) == Some(source),
    ensures
        source.get_str("type"@) == Some("base64"@) ==> match (
            source.get_str("media_type"@),
            source.get_str("data"@),
        ) {
            (Some(media), Some(data)) => input::image_address(block) == Some(
                "data:"@ + media + ";base64,"@ + data,
            ),
            _ => input::image_address(block) is None,
        },
        source.get_str("type"@) == Some("url"@) ==> input::image_address(block) == source.get_str(
            "url"@,
        ),
        source.get_str("type"@) != Some("base64"@) && source.get_str("type"@) != Some("url"@)
            ==> input::image_address(block) is None,
{
    reveal_strlit("base64");
    reveal_strlit("url");
    assert("base64"@.len() == 6 && "url"@.len() == 3);
}

/// A block without a source has no address.
pub proof fn law_no_source_no_address(block: JsonView)
    requires
        block.get("source"@) is None,
    ensures
        input::image_address(block) is None,
{
}

/// A bare text stays as it is, and the texts of blocks are put together with line feeds, none left out.
pub proof fn law_flat_text_holds_every_text(s: Seq<char>, blocks: Seq<JsonView>, ts: Seq<Seq<char>>)
    requires
        blocks.len() == ts.len(),
        forall|i: int|
            0 <= i < blocks.len() ==> (#[trigger] blocks[i]).get_str("text"@) == Some(ts[i]),
    ensures
        input::flat_text(JsonView::Str(s)) == s,
        input::flat_text(JsonView::Array(blocks)) == text::join(ts, "\n"@),
{
    lemma_block_texts(blocks, ts);
}

proof fn lemma_block_texts(blocks: Seq<JsonView>, ts: Seq<Seq<char>>)
    requires
        blocks.len() == ts.len(),
        forall|i: int|
            0 <= i < blocks.len() ==> (#[trigger] blocks[i]).get_str("text"@) == Some(ts[i]),
    ensures
        input::block_texts(blocks) == ts,
    decreases blocks.len(),
{
    if blocks.len() == 0 {
        assert(ts =~= Seq::<Seq<char>>::empty());
    } else {
        let most = blocks.drop_last();
        let said = ts.drop_last();
        assert forall|i: int| 0 <= i < most.len() implies (#[trigger] most[i]).get_str("text"@)
            == Some(said[i]) by {
            assert(most[i] == blocks[i]);
        }
        lemma_block_texts(most, said);
        assert(blocks[blocks.len() - 1].get_str("text"@) == Some(ts.last()));
        assert(said.push(ts.last()) =~= ts);
    }
}

proof fn lemma_block_texts_add(a: Seq<JsonView>, b: Seq<JsonView>)
    ensures
        input::block_texts(a + b) == input::block_texts(a) + input::block_texts(b),
    decreases b.len(),
{
    if b.len() == 0 {
        assert(a + b =~= a);
        assert(input::block_texts(a) + input::block_texts(b) =~= input::block_texts(a));
    } else {
        lemma_block_texts_add(a, b.drop_last());
        assert((a + b).drop_last() =~= a + b.drop_last());
        let x = input::block_texts(a);
        let y = input::block_texts(b.drop_last());
        match b.last().get_str("text"@) {
            Some(t) => {
                assert((x + y).push(t) =~= x + y.push(t));
            },
            None => {},
        }
    }
}

/// A block without a text adds nothing to the others' text, wherever it stands.
pub proof fn law_blocks_without_text_add_nothing(
    a: Seq<JsonView>,
    block: JsonView,
    b: Seq<JsonView>,
)
    requires
        block.get_str("text"@) is None,
    ensures
        input::flat_text(JsonView::Array(a.push(block) + b)) == input::flat_text(
            JsonView::Array(a + b),
        ),
{
    lemma_block_texts_add(a.push(block), b);
    lemma_block_texts_add(a, b);
    assert(a.push(block).drop_last() =~= a);
}

/// What one part of a tool's result is told as: its text, or a note where it is an image.
pub open spec fn told_as(part: JsonView, t: Seq<char>) -> bool {
    if part.get_str("type"@) == Some("image"@) {
        t == "[image omitted]"@
    } else {
        t == or_nothing(part.get_str("text"@))
    }
}

/// A tool's result is told whole: a bare text as it is, the parts of a list line by line, none left
/// out; and where the call failed, that is said first.
pub proof fn law_results_are_told_whole(
    block: JsonView,
    s: Seq<char>,
    parts: Seq<JsonView>,
    ts: Seq<Seq<char>>,
)
    requires
        ts.len() == parts.len(),
        forall|i: int| 0 <= i < parts.len() ==> told_as(#[trigger] parts[i], ts[i]),
    ensures
        ({
            let failed = block.get("is_error"@) == Some(JsonView::Bool(true));
            let said = input::result_text(block);
            let mark = "[tool execution error]\n"@;
            &&& block.get("content"@) == Some(JsonView::Str(s)) ==> said == if failed {
                mark + s
            } else {
                s
            }
            &&& block.get("content"@) == Some(JsonView::Array(parts)) ==> said == if failed {
                mark + text::join(ts, "\n"@)
            } else {
                text::join(ts, "\n"@)
            }
            &&& !(block.get("content"@) matches Some(JsonView::Str(_))) && !(block.get("content"@)
                matches Some(JsonView::Array(_))) ==> said == if failed {
                mark
            } else {
                Seq::<char>::empty()
            }
        }),
{
    let all = parts.map_values(|p: JsonView| input::result_part(p));
    assert forall|i: int| 0 <= i < all.len() implies all[i] == ts[i] by {
        assert(told_as(parts[i], ts[i]));
    }
    assert(all =~= ts);
    assert("[tool execution error]\n"@ + Seq::<char>::empty() =~= "[tool execution error]\n"@);
}

/// The answer to a call is the tool's result; where the call was repaired, the note of the latest
/// repair follows it, and no other.
pub proof fn law_answers_tell_of_the_repair(
    b: JsonView,
    before: Seq<RewriteView>,
    rw: RewriteView,
    later: Seq<RewriteView>,
    id: Seq<char>,
)
    requires
        id == or_nothing(b.get_str("tool_use_id"@)),
        forall|i: int| 0 <= i < later.len() ==> (#[trigger] later[i]).call_id != id,
    ensures
        rw.call_id == id ==> input::answer_text(b, before.push(rw) + later) == input::result_text(b)
            + "\n\n"@ + read_rewrite::note_view(rw.offset),
        input::answer_text(b, later) == input::result_text(b),
{
    lemma_latest(before, rw, later, id);
}

proof fn lemma_latest(
    before: Seq<RewriteView>,
    rw: RewriteView,
    later: Seq<RewriteView>,
    id: Seq<char>,
)
    requires
        forall|i: int| 0 <= i < later.len() ==> (#[trigger] later[i]).call_id != id,
    ensures
        rw.call_id == id ==> read_rewrite::latest_rewrite(before.push(rw) + later, id) == Some(rw),
        read_rewrite::latest_rewrite(later, id) is None,
    decreases later.len(),
{
    let all = before.push(rw) + later;
    if later.len() == 0 {
        assert(all =~= before.push(rw));
    } else {
        let most = later.drop_last();
        assert forall|i: int| 0 <= i < most.len() implies (#[trigger] most[i]).call_id != id by {
            assert(most[i] == later[i]);
        }
        lemma_latest(before, rw, most, id);
        assert(later[later.len() - 1].call_id != id);
        assert(all.drop_last() =~= before.push(rw) + most);
    }
}

/// The note of a repair holds the offset that was taken out.
pub proof fn law_the_note_names_the_offset(offset: u64)
    ensures
        text::contains(read_rewrite::note_view(offset), "offset="@ + text::decimal(offset as nat)),
{
    let note = read_rewrite::note_view(offset);
    let pat = "offset="@ + text::decimal(offset as nat);
    reveal_strlit("[llmtrim: dropped offset=");
    reveal_strlit("offset=");
    let head = "[llmtrim: dropped offset="@;
    let at = head.len() - "offset="@.len();
    assert(note.subrange(at, at + pat.len()) =~= pat);
    assert(text::occurs_at(note, pat, at));
}

/// What is being read holds only parts and items that say something.
spec fn speaks(g: Gathered, from: int) -> bool {
    &&& 0 <= from <= g.items.len()
    &&& forall|i: int| from <= i < g.items.len() ==> item_says(#[trigger] g.items[i]).len() > 0
    &&& forall|i: int|
        0 <= i < g.parts.len() ==> part_says(Seq::empty(), #[trigger] g.parts[i]).len() > 0
}

proof fn lemma_parts_speak(role: Seq<char>, parts: Seq<JsonView>)
    requires
        forall|i: int|
            0 <= i < parts.len() ==> part_says(Seq::empty(), #[trigger] parts[i]).len() > 0,
    ensures
        parts_say(role, parts).len() >= parts.len(),
    decreases parts.len(),
{
    if parts.len() > 0 {
        let most = parts.drop_last();
        assert forall|i: int| 0 <= i < most.len() implies part_says(
            Seq::empty(),
            #[trigger] most[i],
        ).len() > 0 by {
            assert(most[i] == parts[i]);
        }
        lemma_parts_speak(role, most);
        assert(part_says(Seq::empty(), parts[parts.len() - 1]).len() > 0);
        assert(part_says(role, parts.last()).len() > 0);
    }
}

proof fn lemma_flushing_speaks(g: Gathered, role: Seq<char>, from: int)
    requires
        speaks(g, from),
    ensures
        speaks(input::flushed(g, role), from),
{
    let none = Seq::<char>::empty();
    if g.parts.len() > 0 {
        let item = items::message_view(role, g.parts);
        lemma_item_says(role, g.parts, none, none, none);
        lemma_parts_speak(role, g.parts);
        let f = input::flushed(g, role);
        assert forall|i: int| from <= i < f.items.len() implies item_says(
            #[trigger] f.items[i],
        ).len() > 0 by {
            if i < g.items.len() {
                assert(f.items[i] == g.items[i]);
            } else {
                assert(f.items[i] == item);
            }
        }
    }
}

proof fn lemma_part_speaks(g: Gathered, part: JsonView, from: int)
    requires
        speaks(g, from),
        part_says(Seq::empty(), part).len() > 0,
    ensures
        speaks(Gathered { parts: g.parts.push(part), ..g }, from),
{
    let more = g.parts.push(part);
    assert forall|i: int| 0 <= i < more.len() implies part_says(
        Seq::empty(),
        #[trigger] more[i],
    ).len() > 0 by {
        if i < g.parts.len() {
            assert(more[i] == g.parts[i]);
        }
    }
}

proof fn lemma_item_speaks(g: Gathered, item: JsonView, from: int)
    requires
        speaks(g, from),
        item_says(item).len() > 0,
    ensures
        speaks(Gathered { items: g.items.push(item), ..g }, from),
{
    let more = g.items.push(item);
    assert forall|i: int| from <= i < more.len() implies item_says(#[trigger] more[i]).len() > 0 by {
        if i < g.items.len() {
            assert(more[i] == g.items[i]);
        }
    }
}

proof fn lemma_blocks_speak(g: Gathered, bs: Seq<JsonView>, rewrites: Seq<RewriteView>, from: int)
    requires
        speaks(g, from),
    ensures
        speaks(input::user_blocks(g, bs, rewrites), from),
        speaks(input::assistant_blocks(g, bs), from),
    decreases bs.len(),
{
    let none = Seq::<char>::empty();
    if bs.len() > 0 {
        lemma_blocks_speak(g, bs.drop_last(), rewrites, from);
        let b = bs.last();
        let u = input::user_blocks(g, bs.drop_last(), rewrites);
        let a = input::assistant_blocks(g, bs.drop_last());
        let said = or_nothing(b.get_str("text"@));
        lemma_part_says(none, "input_text"@, said);
        lemma_part_speaks(u, items::text_part_view("input_text"@, said), from);
        lemma_part_says(none, "output_text"@, said);
        lemma_part_speaks(a, items::text_part_view("output_text"@, said), from);
        let address = or_nothing(input::image_address(b));
        lemma_part_says(none, none, address);
        lemma_part_speaks(u, items::image_part_view(address), from);
        lemma_flushing_speaks(u, "user"@, from);
        lemma_flushing_speaks(a, "assistant"@, from);
        let answered = or_nothing(b.get_str("tool_use_id"@));
        let output = input::answer_text(b, rewrites);
        lemma_item_says(none, Seq::empty(), answered, none, output);
        lemma_item_speaks(
            input::flushed(u, "user"@),
            items::function_call_output_view(answered, output),
            from,
        );
        let id = or_nothing(b.get_str("id"@));
        let name = or_nothing(b.get_str("name"@));
        let arguments = input::arguments_text(b);
        lemma_item_says(none, Seq::empty(), id, name, arguments);
        lemma_item_speaks(
            input::flushed(a, "assistant"@),
            items::function_call_view(id, name, arguments),
            from,
        );
    }
}

/// No item of a request is there for nothing: each says something.
pub proof fn law_every_item_says_something(
    before: Seq<JsonView>,
    msg: JsonView,
    rewrites: Seq<RewriteView>,
    i: int,
)
    requires
        before.len() <= i < input::with_message(before, msg, rewrites).len(),
    ensures
        item_says(input::with_message(before, msg, rewrites)[i]).len() > 0,
{
    let none = Seq::<char>::empty();
    let start = Gathered { items: before, parts: Seq::empty() };
    let from = before.len() as int;
    let content = match msg.get("content"@) {
        Some(c) => c,
        None => JsonView::Null,
    };
    let bs = input::blocks_of(content);
    lemma_blocks_speak(start, bs, rewrites, from);
    lemma_flushing_speaks(input::user_blocks(start, bs, rewrites), "user"@, from);
    lemma_flushing_speaks(input::assistant_blocks(start, bs), "assistant"@, from);
    let part = items::text_part_view("input_text"@, input::flat_text(content));
    lemma_part_says(none, "input_text"@, input::flat_text(content));
    let noted = Gathered { items: before, parts: seq![part] };
    assert(speaks(noted, from));
    lemma_flushing_speaks(noted, "developer"@, from);
    let f = input::flushed(noted, "developer"@);
    assert(f.items =~= before.push(items::message_view("developer"@, seq![part])));
}

/// A call's arguments are the text of its input; no input, or an empty one, is the text of an object
/// without members.
pub proof fn law_arguments_are_the_input(b: JsonView, v: JsonView)
    ensures
        b.get("input"@) == Some(v) && !(v is Null) && json::json_text(v) is Some
            ==> input::arguments_text(b) == json::json_text(v)->0,
        b.get("input"@) == Some(JsonView::Null) ==> input::arguments_text(b) == "{}"@,
        b.get("input"@) == Some(v) && json::json_text(v) is None ==> input::arguments_text(b) == "{}"@,
        b.get("input"@) is None && json::json_text(JsonView::Object(Seq::empty())) is Some
            ==> input::arguments_text(b) == json::json_text(JsonView::Object(Seq::empty()))->0,
{
}

} // verus!
