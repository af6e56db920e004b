//! The pointers to the text of a request are all there are, and no others.
use crate::json;
use crate::json::{JsonView, Members};
use crate::pointer;
use crate::provider::pointers;
use crate::text;
use vstd::prelude::*;

verus! {

// ---------------------------------------------------------------------------------------------
// Ways into a value
// ---------------------------------------------------------------------------------------------

/// One step into a value.
pub enum Way {
    Position(nat),
    Member(Seq<char>),
}

/// The value that a way leads to.
pub open spec fn value_at(v: JsonView, path: Seq<Way>) -> Option<JsonView>
    decreases path.len(),
{
    if path.len() == 0 {
        Some(v)
    } else {
        match (v, path[0]) {
            (JsonView::Array(a), Way::Position(i)) => if i < a.len() {
                value_at(a[i as int], path.drop_first())
            } else {
                None
            },
            (JsonView::Object(e), Way::Member(k)) => match json::lookup(e, k) {
                Some(w) => value_at(w, path.drop_first()),
                None => None,
            },
            _ => None,
        }
    }
}

/// A pointer one token further.
pub open spec fn then(p: Seq<char>, token: Seq<char>) -> Seq<char> {
    p.push('/') + token
}

/// A pointer one position further.
pub open spec fn then_at(p: Seq<char>, i: int) -> Seq<char> {
    then(p, text::decimal(i as nat))
}

/// How a pointer writes a way: positions in decimal, members by their keys, escaped.
pub open spec fn written(p: Seq<char>, path: Seq<Way>) -> Seq<char>
    decreases path.len(),
{
    if path.len() == 0 {
        p
    } else {
        written(
            match path[0] {
                Way::Position(i) => then_at(p, i as int),
                Way::Member(k) => then(p, pointer::escape(k)),
            },
            path.drop_first(),
        )
    }
}

/// `q` is how the way `path` from `p` is written, and leads to a string of `v`.
pub open spec fn leads_to_string(v: JsonView, p: Seq<char>, path: Seq<Way>, q: Seq<char>) -> bool {
    value_at(v, path) is Some && value_at(v, path)->0 is Str && q == written(p, path)
}

/// `q` points to a string of `v`, which stands at `p`.
pub open spec fn points_into(v: JsonView, p: Seq<char>, q: Seq<char>) -> bool {
    exists|path: Seq<Way>| #[trigger] leads_to_string(v, p, path, q)
}

proof fn lemma_contains_add(a: Seq<Seq<char>>, b: Seq<Seq<char>>, q: Seq<char>)
    ensures
        (a + b).contains(q) <==> a.contains(q) || b.contains(q),
{
    let c = a + b;
    if a.contains(q) {
        let i = choose|i: int| 0 <= i < a.len() && a[i] == q;
        assert(c[i] == q);
    }
    if b.contains(q) {
        let i = choose|i: int| 0 <= i < b.len() && b[i] == q;
        assert(c[i + a.len()] == q);
    }
    if c.contains(q) {
        let i = choose|i: int| 0 <= i < c.len() && c[i] == q;
        if i < a.len() {
            assert(a[i] == q);
        } else {
            assert(b[i - a.len()] == q);
        }
    }
}

proof fn lemma_first_step(v: JsonView, w: JsonView, p: Seq<char>, at: Seq<char>, way: Way, q: Seq<char>)
    requires
        match (v, way) {
            (JsonView::Array(a), Way::Position(i)) => i < a.len() && a[i as int] == w && at
                == then_at(p, i as int),
            (JsonView::Object(e), Way::Member(k)) => json::lookup(e, k) == Some(w) && at == then(
                p,
                pointer::escape(k),
            ),
            _ => false,
        },
        points_into(w, at, q),
    ensures
        points_into(v, p, q),
{
    let rest = choose|rest: Seq<Way>| #[trigger] leads_to_string(w, at, rest, q);
    let path = seq![way] + rest;
    assert(path.drop_first() =~= rest);
    assert(path[0] == way);
    assert(leads_to_string(v, p, path, q));
}

/// Every string under a value is pointed to, and nothing else is.
pub proof fn law_every_string_is_pointed_to(v: JsonView, p: Seq<char>, q: Seq<char>)
    requires
        json::well_keyed(v),
    ensures
        pointers::leaf_pointers(v, p).contains(q) <==> points_into(v, p, q),
    decreases v, 0nat,
{
    let ps = pointers::leaf_pointers(v, p);
    match v {
        JsonView::Str(_) => {
            let none = Seq::<Way>::empty();
            if ps.contains(q) {
                assert(leads_to_string(v, p, none, q));
            }
            if points_into(v, p, q) {
                let path = choose|path: Seq<Way>| #[trigger] leads_to_string(v, p, path, q);
                assert(ps[0] == q);
            }
        },
        JsonView::Array(a) => {
            lemma_elements(a, a.len(), p, q);
            if ps.contains(q) {
                let i = choose|i: int| 0 <= i < a.len() && points_into(#[trigger] a[i], then_at(p, i), q);
                lemma_first_step(v, a[i], p, then_at(p, i), Way::Position(i as nat), q);
            }
            if points_into(v, p, q) {
                let path = choose|path: Seq<Way>| #[trigger] leads_to_string(v, p, path, q);
                assert(path.len() > 0);
                let i = path[0]->Position_0;
                assert(leads_to_string(a[i as int], then_at(p, i as int), path.drop_first(), q));
            }
        },
        JsonView::Object(e) => {
            assert(v->Object_0 == e);
            lemma_members(e, e.len(), p, q);
            if ps.contains(q) {
                let i = choose|i: int|
                    0 <= i < e.len() && points_into(
                        (#[trigger] e[i]).1,
                        then(p, pointer::escape(e[i].0)),
                        q,
                    );
                json::lemma_lookup_at(e, i);
                lemma_first_step(
                    v,
                    e[i].1,
                    p,
                    then(p, pointer::escape(e[i].0)),
                    Way::Member(e[i].0),
                    q,
                );
            }
            if points_into(v, p, q) {
                let path = choose|path: Seq<Way>| #[trigger] leads_to_string(v, p, path, q);
                assert(path.len() > 0);
                let k = path[0]->Member_0;
                json::lemma_lookup_has_key(e, k);
                let i = choose|i: int| 0 <= i < e.len() && (#[trigger] e[i]).0 == k;
                json::lemma_lookup_at(e, i);
                assert(leads_to_string(
                    e[i].1,
                    then(p, pointer::escape(k)),
                    path.drop_first(),
                    q,
                ));
            }
        },
        _ => {
            if points_into(v, p, q) {
                let path = choose|path: Seq<Way>| #[trigger] leads_to_string(v, p, path, q);
            }
        },
    }
}

proof fn lemma_elements(a: Seq<JsonView>, n: nat, p: Seq<char>, q: Seq<char>)
    requires
        json::well_keyed(JsonView::Array(a)),
        n <= a.len(),
    ensures
        pointers::element_leaves(a, n, p).contains(q) <==> exists|i: int|
            0 <= i < n && points_into(#[trigger] a[i], then_at(p, i), q),
    decreases a, n,
{
    if n > 0 {
        let m = (n - 1) as nat;
        lemma_elements(a, m, p, q);
        json::lemma_well_keyed_element(a, n - 1);
        law_every_string_is_pointed_to(a[n - 1], then_at(p, n - 1), q);
        lemma_contains_add(
            pointers::element_leaves(a, m, p),
            pointers::leaf_pointers(a[n - 1], pointer::under_index(p, m)),
            q,
        );
        if exists|i: int| 0 <= i < n && points_into(#[trigger] a[i], then_at(p, i), q) {
            let i = choose|i: int| 0 <= i < n && points_into(#[trigger] a[i], then_at(p, i), q);
            if i < m {
                assert(points_into(a[i], then_at(p, i), q));
            }
        }
    }
}

proof fn lemma_members(e: Members, n: nat, p: Seq<char>, q: Seq<char>)
    requires
        json::well_keyed(JsonView::Object(e)),
        n <= e.len(),
    ensures
        pointers::member_leaves(e, n, p).contains(q) <==> exists|i: int|
            0 <= i < n && points_into((#[trigger] e[i]).1, then(p, pointer::escape(e[i].0)), q),
    decreases e, n,
{
    if n > 0 {
        let m = (n - 1) as nat;
        lemma_members(e, m, p, q);
        let whole = JsonView::Object(e);
        assert(whole->Object_0 == e);
        assert(json::well_keyed(e[n - 1].1));
        assert(decreases_to!(e => e[n - 1].1));
        law_every_string_is_pointed_to(e[n - 1].1, then(p, pointer::escape(e[n - 1].0)), q);
        lemma_contains_add(
            pointers::member_leaves(e, m, p),
            pointers::leaf_pointers(e[n - 1].1, pointer::under_key(p, e[n - 1].0)),
            q,
        );
        if exists|i: int|
            0 <= i < n && points_into((#[trigger] e[i]).1, then(p, pointer::escape(e[i].0)), q) {
            let i = choose|i: int|
                0 <= i < n && points_into((#[trigger] e[i]).1, then(p, pointer::escape(e[i].0)), q);
            if i < m {
                assert(points_into(e[i].1, then(p, pointer::escape(e[i].0)), q));
            }
        }
    }
}

// ---------------------------------------------------------------------------------------------
// What a model reads
// ---------------------------------------------------------------------------------------------

/// The block is of the type.
pub open spec fn of_type(b: JsonView, kind: Seq<char>) -> bool {
    b.get_str("type"@) == Some(kind)
}

/// The block is a text block that has a text.
pub open spec fn has_text(b: JsonView) -> bool {
    of_type(b, "text"@) && b.get_str("text"@) is Some
}

/// `q` points to the text of one of the blocks at `p`.
pub open spec fn read_in_texts(bs: Seq<JsonView>, p: Seq<char>, q: Seq<char>) -> bool {
    exists|k: int|
        0 <= k < bs.len() && has_text(#[trigger] bs[k]) && q == then(then_at(p, k), "text"@)
}

/// `q` points to something in the block at `p` that a model reads: the text of a text block, the
/// result of a tool or the texts in it, any string of a tool call's input, the data of a document that
/// is not known to be anything but text.
pub open spec fn read_in_block(b: JsonView, p: Seq<char>, q: Seq<char>) -> bool {
    ||| has_text(b) && q == then(p, "text"@)
    ||| of_type(b, "tool_result"@) && b.get_str("content"@) is Some && q == then(p, "content"@)
    ||| of_type(b, "tool_result"@) && b.get_array("content"@) is Some && read_in_texts(
        b.get_array("content"@)->0,
        then(p, "content"@),
        q,
    )
    ||| of_type(b, "tool_use"@) && b.get("input"@) is Some && points_into(
        b.get("input"@)->0,
        then(p, "input"@),
        q,
    )
    ||| of_type(b, "document"@) && b.get("source"@) is Some && b.get("source"@)->0.get_str(
        "data"@,
    ) is Some && (b.get("source"@)->0.get_str("media_type"@) matches Some(m) ==> text::starts_with(
        m,
        "text/"@,
    )) && q == then(then(p, "source"@), "data"@)
}

/// `q` points to the arguments of a tool call at `p`.
pub open spec fn read_in_call(c: JsonView, p: Seq<char>, q: Seq<char>) -> bool {
    c.get("function"@) is Some && c.get("function"@)->0.get_str("arguments"@) is Some && q == then(
        then(p, "function"@),
        "arguments"@,
    )
}

/// `q` points to something in one of the blocks at `p` that a model reads.
pub open spec fn read_in_blocks(bs: Seq<JsonView>, p: Seq<char>, q: Seq<char>) -> bool {
    exists|j: int| 0 <= j < bs.len() && read_in_block(#[trigger] bs[j], then_at(p, j), q)
}

/// `q` points to the arguments of one of the tool calls at `p`.
pub open spec fn read_in_calls(cs: Seq<JsonView>, p: Seq<char>, q: Seq<char>) -> bool {
    exists|j: int| 0 <= j < cs.len() && read_in_call(#[trigger] cs[j], then_at(p, j), q)
}

/// `q` points to something in the message at `p` that a model reads.
pub open spec fn read_in_message(msg: JsonView, p: Seq<char>, q: Seq<char>) -> bool {
    ||| msg.get_str("content"@) is Some && q == then(p, "content"@)
    ||| msg.get_array("content"@) is Some && read_in_blocks(
        msg.get_array("content"@)->0,
        then(p, "content"@),
        q,
    )
    ||| msg.get_array("tool_calls"@) is Some && read_in_calls(
        msg.get_array("tool_calls"@)->0,
        then(p, "tool_calls"@),
        q,
    )
}

/// A pointer of two plain tokens that are no positions addresses a member of a member.
proof fn lemma_two_members(v: JsonView, a: Seq<char>, b: Seq<char>, whole: Seq<char>)
    requires
        whole == then(then(Seq::empty(), a), b),
        pointer::escape(a) == a,
        pointer::escape(b) == b,
        a.len() > 0,
        b.len() > 0,
        !text::is_digit(a[0]),
        !text::is_digit(b[0]),
    ensures
        pointer::pointee(v, whole) == match v.get(a) {
            Some(w) => w.get(b),
            None => None,
        },
{
    let none = Seq::<char>::empty();
    pointer::lemma_escape_has_no_slash(a);
    pointer::lemma_escape_has_no_slash(b);
    pointer::law_unescape_reverses_escape(a);
    pointer::law_unescape_reverses_escape(b);
    text::lemma_split_more(none, a, '/');
    text::lemma_split_more(then(none, a), b, '/');
    let tokens = text::split(whole, '/').drop_first();
    assert(text::split(none, '/') =~= seq![none]);
    assert(tokens =~= seq![a, b]);
    assert(tokens.drop_last() =~= seq![a]);
    assert(tokens.drop_last().drop_last() =~= Seq::<Seq<char>>::empty());
    reveal_with_fuel(pointer::walk, 4);
    assert(whole[0] == '/');
}

proof fn lemma_names()
    ensures
        pointer::escape("source"@) == "source"@,
        pointer::escape("data"@) == "data"@,
        pointer::escape("media_type"@) == "media_type"@,
        pointer::escape("function"@) == "function"@,
        pointer::escape("arguments"@) == "arguments"@,
        "/source/data"@ == then(then(Seq::empty(), "source"@), "data"@),
        "/source/media_type"@ == then(then(Seq::empty(), "source"@), "media_type"@),
        "/function/arguments"@ == then(then(Seq::empty(), "function"@), "arguments"@),
        "source"@[0] == 's' && "source"@.len() > 0,
        "data"@[0] == 'd' && "data"@.len() > 0,
        "media_type"@[0] == 'm' && "media_type"@.len() > 0,
        "function"@[0] == 'f' && "function"@.len() > 0,
        "arguments"@[0] == 'a' && "arguments"@.len() > 0,
{
    reveal_strlit("source");
    reveal_strlit("data");
    reveal_strlit("media_type");
    reveal_strlit("function");
    reveal_strlit("arguments");
    reveal_strlit("/source/data");
    reveal_strlit("/source/media_type");
    reveal_strlit("/function/arguments");
    pointer::lemma_plain_key("source"@);
    pointer::lemma_plain_key("data"@);
    pointer::lemma_plain_key("media_type"@);
    pointer::lemma_plain_key("function"@);
    pointer::lemma_plain_key("arguments"@);
    assert("/source/data"@ =~= then(then(Seq::empty(), "source"@), "data"@));
    assert("/source/media_type"@ =~= then(then(Seq::empty(), "source"@), "media_type"@));
    assert("/function/arguments"@ =~= then(then(Seq::empty(), "function"@), "arguments"@));
}

proof fn lemma_inner(bs: Seq<JsonView>, n: nat, p: Seq<char>, q: Seq<char>)
    requires
        n <= bs.len(),
    ensures
        pointers::inner_pointers(bs, n, p).contains(q) <==> exists|k: int|
            0 <= k < n && has_text(#[trigger] bs[k]) && q == then(then_at(p, k), "text"@),
    decreases n,
{
    if n > 0 {
        let m = (n - 1) as nat;
        lemma_inner(bs, m, p, q);
        let before = pointers::inner_pointers(bs, m, p);
        let one = then(then_at(p, n - 1), "text"@);
        if pointers::is_text_block(bs[n - 1]) {
            lemma_contains_add(before, seq![one], q);
            assert(before + seq![one] =~= before.push(one));
            if q == one {
                assert(seq![one][0] == q);
            }
        }
        if exists|k: int| 0 <= k < n && has_text(#[trigger] bs[k]) && q == then(then_at(p, k), "text"@) {
            let k = choose|k: int|
                0 <= k < n && has_text(#[trigger] bs[k]) && q == then(then_at(p, k), "text"@);
            if k < m {
                assert(has_text(bs[k]));
            }
        }
        assert(has_text(bs[n - 1]) == pointers::is_text_block(bs[n - 1]));
    }
}

proof fn lemma_block(b: JsonView, p: Seq<char>, q: Seq<char>)
    requires
        json::well_keyed(b),
    ensures
        pointers::block_pointers(b, p).contains(q) <==> read_in_block(b, p, q),
{
    let ps = pointers::block_pointers(b, p);
    reveal_strlit("text");
    reveal_strlit("tool_result");
    reveal_strlit("tool_use");
    reveal_strlit("document");
    assert("text"@.len() == 4 && "tool_result"@.len() == 11 && "tool_use"@.len() == 8
        && "document"@.len() == 8);
    assert("tool_use"@[0] == 't' && "document"@[0] == 'd');
    lemma_names();
    lemma_two_members(b, "source"@, "data"@, "/source/data"@);
    lemma_two_members(b, "source"@, "media_type"@, "/source/media_type"@);
    if ps.len() == 1 {
        assert(ps.contains(q) <==> ps[0] == q) by {
            if ps[0] == q {
                assert(ps.contains(q));
            }
        }
    }
    match b.get("content"@) {
        Some(JsonView::Array(inner)) => {
            lemma_inner(inner, inner.len(), then(p, "content"@), q);
        },
        _ => {},
    }
    if of_type(b, "tool_use"@) && b.get("input"@) is Some {
        json::lemma_well_keyed_member(b->Object_0, "input"@);
        law_every_string_is_pointed_to(b.get("input"@)->0, then(p, "input"@), q);
    }
    if has_text(b) {
        assert(ps.len() == 1);
    } else if of_type(b, "tool_result"@) {
        assert(ps.contains(q) <==> read_in_block(b, p, q));
    } else if of_type(b, "tool_use"@) {
        assert(ps.contains(q) <==> read_in_block(b, p, q));
    } else if of_type(b, "document"@) {
        assert(pointers::is_text_document(b) == (b.get("source"@) is Some && b.get(
            "source"@,
        )->0.get_str("data"@) is Some && (b.get("source"@)->0.get_str("media_type"@) matches Some(
            m,
        ) ==> text::starts_with(m, "text/"@))));
        assert(ps.contains(q) <==> read_in_block(b, p, q));
    } else {
        assert(ps.len() == 0);
    }
}

proof fn lemma_blocks(bs: Seq<JsonView>, n: nat, p: Seq<char>, q: Seq<char>)
    requires
        json::well_keyed(JsonView::Array(bs)),
        n <= bs.len(),
    ensures
        pointers::blocks_pointers(bs, n, p).contains(q) <==> exists|j: int|
            0 <= j < n && read_in_block(#[trigger] bs[j], then_at(p, j), q),
    decreases n,
{
    if n > 0 {
        let m = (n - 1) as nat;
        lemma_blocks(bs, m, p, q);
        json::lemma_well_keyed_element(bs, n - 1);
        lemma_block(bs[n - 1], then_at(p, n - 1), q);
        lemma_contains_add(
            pointers::blocks_pointers(bs, m, p),
            pointers::block_pointers(bs[n - 1], pointer::under_index(p, m)),
            q,
        );
        if exists|j: int| 0 <= j < n && read_in_block(#[trigger] bs[j], then_at(p, j), q) {
            let j = choose|j: int| 0 <= j < n && read_in_block(#[trigger] bs[j], then_at(p, j), q);
            if j < m {
                assert(read_in_block(bs[j], then_at(p, j), q));
            }
        }
    }
}

proof fn lemma_calls(cs: Seq<JsonView>, n: nat, p: Seq<char>, q: Seq<char>)
    requires
        n <= cs.len(),
    ensures
        pointers::calls_pointers(cs, n, p).contains(q) <==> exists|j: int|
            0 <= j < n && read_in_call(#[trigger] cs[j], then_at(p, j), q),
    decreases n,
{
    if n > 0 {
        let m = (n - 1) as nat;
        lemma_calls(cs, m, p, q);
        lemma_names();
        lemma_two_members(cs[n - 1], "function"@, "arguments"@, "/function/arguments"@);
        let before = pointers::calls_pointers(cs, m, p);
        let one = then(then(then_at(p, n - 1), "function"@), "arguments"@);
        if pointers::has_arguments(cs[n - 1]) {
            lemma_contains_add(before, seq![one], q);
            assert(before + seq![one] =~= before.push(one));
            if q == one {
                assert(seq![one][0] == q);
            }
        }
        if exists|j: int| 0 <= j < n && read_in_call(#[trigger] cs[j], then_at(p, j), q) {
            let j = choose|j: int| 0 <= j < n && read_in_call(#[trigger] cs[j], then_at(p, j), q);
            if j < m {
                assert(read_in_call(cs[j], then_at(p, j), q));
            }
        }
    }
}

proof fn lemma_message(msg: JsonView, p: Seq<char>, q: Seq<char>)
    requires
        json::well_keyed(msg),
    ensures
        pointers::message_pointers(msg, p).contains(q) <==> read_in_message(msg, p, q),
{
    let content = pointers::content_pointers(msg, p);
    let at = then(p, "content"@);
    match msg.get("content"@) {
        Some(JsonView::Str(_)) => {
            assert(content =~= seq![at]);
            assert(content.contains(q) <==> content[0] == q) by {
                if content[0] == q {
                    assert(content.contains(q));
                }
            }
        },
        Some(JsonView::Array(bs)) => {
            json::lemma_well_keyed_member(msg->Object_0, "content"@);
            lemma_blocks(bs, bs.len(), at, q);
        },
        _ => {},
    }
    let calls = match msg.get_array("tool_calls"@) {
        Some(cs) => {
            lemma_calls(cs, cs.len(), then(p, "tool_calls"@), q);
            pointers::calls_pointers(cs, cs.len(), then(p, "tool_calls"@))
        },
        None => Seq::empty(),
    };
    lemma_contains_add(content, calls, q);
}

proof fn lemma_messages(ms: Seq<JsonView>, n: nat, q: Seq<char>)
    requires
        json::well_keyed(JsonView::Array(ms)),
        n <= ms.len(),
    ensures
        pointers::messages_pointers(ms, n).contains(q) <==> exists|i: int|
            0 <= i < n && read_in_message(#[trigger] ms[i], then_at("/messages"@, i), q),
    decreases n,
{
    if n > 0 {
        let m = (n - 1) as nat;
        lemma_messages(ms, m, q);
        json::lemma_well_keyed_element(ms, n - 1);
        lemma_message(ms[n - 1], then_at("/messages"@, n - 1), q);
        lemma_contains_add(
            pointers::messages_pointers(ms, m),
            pointers::message_pointers(ms[n - 1], pointer::under_index("/messages"@, m)),
            q,
        );
        if exists|i: int|
            0 <= i < n && read_in_message(#[trigger] ms[i], then_at("/messages"@, i), q) {
            let i = choose|i: int|
                0 <= i < n && read_in_message(#[trigger] ms[i], then_at("/messages"@, i), q);
            if i < m {
                assert(read_in_message(ms[i], then_at("/messages"@, i), q));
            }
        }
    }
}

/// The pointers to the text of the messages are complete: whatever a model reads in any of them is
/// pointed to, and nothing else is.
pub proof fn law_everything_read_is_pointed_to(ms: Seq<JsonView>, q: Seq<char>)
    requires
        json::well_keyed(JsonView::Array(ms)),
    ensures
        pointers::messages_pointers(ms, ms.len()).contains(q) <==> exists|i: int|
            0 <= i < ms.len() && read_in_message(#[trigger] ms[i], then_at("/messages"@, i), q),
{
    lemma_messages(ms, ms.len(), q);
}

} // verus!
