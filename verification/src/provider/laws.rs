//! What holds of every list of pointers.
use crate::json;
use crate::json::{JsonView, Members};
use crate::pointer;
use crate::provider;
use crate::provider::pointers;
use crate::text;
use vstd::prelude::*;

verus! {

/// `p` addresses a string of `root`, and goes on from `base`.
pub open spec fn addresses_string(root: JsonView, base: Seq<char>, p: Seq<char>) -> bool {
    &&& pointer::pointee(root, p) is Some
    &&& pointer::pointee(root, p)->0 is Str
    &&& text::starts_with(p, base)
}

/// Every pointer of the list addresses a string of `root`, and goes on from `base`.
pub open spec fn all_strings(root: JsonView, base: Seq<char>, ps: Seq<Seq<char>>) -> bool {
    forall|i: int| 0 <= i < ps.len() ==> addresses_string(root, base, #[trigger] ps[i])
}

proof fn lemma_all_add(root: JsonView, base: Seq<char>, a: Seq<Seq<char>>, b: Seq<Seq<char>>)
    requires
        all_strings(root, base, a),
        all_strings(root, base, b),
    ensures
        all_strings(root, base, a + b),
{
    let c = a + b;
    assert forall|i: int| 0 <= i < c.len() implies addresses_string(
        root,
        base,
        #[trigger] c[i],
    ) by {
        if i < a.len() {
            assert(c[i] == a[i]);
        } else {
            assert(c[i] == b[i - a.len()]);
        }
    }
}

proof fn lemma_longer(p: Seq<char>, more: Seq<char>, base: Seq<char>)
    requires
        text::starts_with(p, base),
    ensures
        text::starts_with(p + more, base),
{
    assert((p + more).subrange(0, base.len() as int) =~= p.subrange(0, base.len() as int));
}

proof fn lemma_self_start(p: Seq<char>)
    ensures
        text::starts_with(p, p),
{
    assert(p.subrange(0, p.len() as int) =~= p);
}

proof fn lemma_further(p: Seq<char>, base: Seq<char>, tail: Seq<char>)
    requires
        text::starts_with(p, base),
    ensures
        text::starts_with(p.push('/') + tail, base),
{
    lemma_longer(p, seq!['/'] + tail, base);
    assert(p + (seq!['/'] + tail) =~= p.push('/') + tail);
}

/// Every pointer to a leaf under a value addresses a string, and lies under `base`.
pub proof fn law_leaf_pointers_address_strings(
    root: JsonView,
    base: Seq<char>,
    v: JsonView,
    prefix: Seq<char>,
)
    requires
        pointer::pointee(root, prefix) == Some(v),
        json::well_keyed(v),
        text::starts_with(prefix, base),
    ensures
        all_strings(root, base, pointers::leaf_pointers(v, prefix)),
    decreases v, 0nat,
{
    match v {
        JsonView::Array(a) => {
            lemma_element_leaves(root, base, a, a.len(), prefix);
        },
        JsonView::Object(e) => {
            lemma_member_leaves(root, base, e, e.len(), prefix);
        },
        _ => {},
    }
}

proof fn lemma_element_leaves(
    root: JsonView,
    base: Seq<char>,
    a: Seq<JsonView>,
    n: nat,
    prefix: Seq<char>,
)
    requires
        pointer::pointee(root, prefix) == Some(JsonView::Array(a)),
        json::well_keyed(JsonView::Array(a)),
        text::starts_with(prefix, base),
    ensures
        all_strings(root, base, pointers::element_leaves(a, n, prefix)),
    decreases a, n,
{
    if 0 < n <= a.len() {
        let i = (n - 1) as nat;
        lemma_element_leaves(root, base, a, i, prefix);
        pointer::law_under_index_addresses_the_element(root, prefix, i, a);
        lemma_further(prefix, base, text::decimal(i));
        json::lemma_well_keyed_element(a, n - 1);
        law_leaf_pointers_address_strings(root, base, a[n - 1], pointer::under_index(prefix, i));
        lemma_all_add(
            root,
            base,
            pointers::element_leaves(a, i, prefix),
            pointers::leaf_pointers(a[n - 1], pointer::under_index(prefix, i)),
        );
    }
}

proof fn lemma_member_leaves(
    root: JsonView,
    base: Seq<char>,
    e: Members,
    n: nat,
    prefix: Seq<char>,
)
    requires
        pointer::pointee(root, prefix) == Some(JsonView::Object(e)),
        json::well_keyed(JsonView::Object(e)),
        text::starts_with(prefix, base),
    ensures
        all_strings(root, base, pointers::member_leaves(e, n, prefix)),
    decreases e, n,
{
    if 0 < n <= e.len() {
        let i = (n - 1) as nat;
        lemma_member_leaves(root, base, e, i, prefix);
        json::lemma_lookup_at(e, n - 1);
        let key = e[n - 1].0;
        pointer::law_under_key_addresses_the_member(root, prefix, key, e);
        lemma_further(prefix, base, pointer::escape(key));
        assert(decreases_to!(e => e[n - 1].1));
        law_leaf_pointers_address_strings(
            root,
            base,
            e[n - 1].1,
            pointer::under_key(prefix, key),
        );
        lemma_all_add(
            root,
            base,
            pointers::member_leaves(e, i, prefix),
            pointers::leaf_pointers(e[n - 1].1, pointer::under_key(prefix, key)),
        );
    }
}

/// A known member name stands in a pointer as it is.
pub proof fn lemma_field(p: Seq<char>, name: Seq<char>, root: JsonView, v: JsonView)
    requires
        pointer::pointee(root, p) == Some(v),
        v is Object,
        pointer::escape(name) == name,
    ensures
        pointer::pointee(root, pointers::under_field(p, name)) == v.get(name),
{
    pointer::law_under_key_addresses_the_member(root, p, name, v->Object_0);
}

/// The names that stand in pointers to text need no escaping.
pub proof fn lemma_known_names()
    ensures
        pointer::escape("text"@) == "text"@,
        pointer::escape("content"@) == "content"@,
        pointer::escape("input"@) == "input"@,
        pointer::escape("source"@) == "source"@,
        pointer::escape("data"@) == "data"@,
        pointer::escape("tool_calls"@) == "tool_calls"@,
        pointer::escape("function"@) == "function"@,
        pointer::escape("arguments"@) == "arguments"@,
        pointer::escape("messages"@) == "messages"@,
{
    reveal_strlit("text");
    reveal_strlit("content");
    reveal_strlit("input");
    reveal_strlit("source");
    reveal_strlit("data");
    reveal_strlit("tool_calls");
    reveal_strlit("function");
    reveal_strlit("arguments");
    reveal_strlit("messages");
    pointer::lemma_plain_key("text"@);
    pointer::lemma_plain_key("content"@);
    pointer::lemma_plain_key("input"@);
    pointer::lemma_plain_key("source"@);
    pointer::lemma_plain_key("data"@);
    pointer::lemma_plain_key("tool_calls"@);
    pointer::lemma_plain_key("function"@);
    pointer::lemma_plain_key("arguments"@);
    pointer::lemma_plain_key("messages"@);
}

/// A pointer to a known member that is a string addresses a string.
proof fn lemma_string_field(
    root: JsonView,
    base: Seq<char>,
    p: Seq<char>,
    name: Seq<char>,
    v: JsonView,
)
    requires
        pointer::pointee(root, p) == Some(v),
        pointer::escape(name) == name,
        v.get_str(name) is Some,
        text::starts_with(p, base),
    ensures
        all_strings(root, base, seq![pointers::under_field(p, name)]),
{
    lemma_field(p, name, root, v);
    lemma_further(p, base, name);
}

proof fn lemma_inner_pointers(
    root: JsonView,
    base: Seq<char>,
    bs: Seq<JsonView>,
    n: nat,
    prefix: Seq<char>,
)
    requires
        pointer::pointee(root, prefix) == Some(JsonView::Array(bs)),
        text::starts_with(prefix, base),
    ensures
        all_strings(root, base, pointers::inner_pointers(bs, n, prefix)),
    decreases n,
{
    if 0 < n <= bs.len() {
        let i = (n - 1) as nat;
        lemma_inner_pointers(root, base, bs, i, prefix);
        if pointers::is_text_block(bs[n - 1]) {
            lemma_known_names();
            pointer::law_under_index_addresses_the_element(root, prefix, i, bs);
            lemma_further(prefix, base, text::decimal(i));
            let at = pointer::under_index(prefix, i);
            lemma_string_field(root, base, at, "text"@, bs[n - 1]);
            let before = pointers::inner_pointers(bs, i, prefix);
            let one = seq![pointers::under_field(at, "text"@)];
            lemma_all_add(root, base, before, one);
            assert(before + one =~= pointers::inner_pointers(bs, n, prefix));
        }
    }
}

/// A pointer that goes on from where a value stands addresses what the rest addresses in the value.
proof fn lemma_string_below(
    root: JsonView,
    base: Seq<char>,
    p: Seq<char>,
    rest: Seq<char>,
    v: JsonView,
)
    requires
        pointer::pointee(root, p) == Some(v),
        pointer::pointee(v, rest) is Some,
        pointer::pointee(v, rest)->0 is Str,
        text::starts_with(p, base),
    ensures
        all_strings(root, base, seq![p + rest]),
{
    pointer::law_pointers_compose(root, p, rest, v);
    lemma_longer(p, rest, base);
}

proof fn lemma_block_pointers(root: JsonView, base: Seq<char>, b: JsonView, prefix: Seq<char>)
    requires
        pointer::pointee(root, prefix) == Some(b),
        json::well_keyed(b),
        text::starts_with(prefix, base),
    ensures
        all_strings(root, base, pointers::block_pointers(b, prefix)),
{
    lemma_known_names();
    let kind = b.get_str("type"@);
    if pointers::is_text_block(b) {
        lemma_string_field(root, base, prefix, "text"@, b);
    } else if kind == Some("tool_result"@) {
        match b.get("content"@) {
            Some(JsonView::Str(_)) => {
                lemma_string_field(root, base, prefix, "content"@, b);
            },
            Some(JsonView::Array(inner)) => {
                lemma_field(prefix, "content"@, root, b);
                lemma_further(prefix, base, "content"@);
                lemma_inner_pointers(
                    root,
                    base,
                    inner,
                    inner.len(),
                    pointers::under_field(prefix, "content"@),
                );
            },
            _ => {},
        }
    } else if kind == Some("tool_use"@) {
        match b.get("input"@) {
            Some(v) => {
                lemma_field(prefix, "input"@, root, b);
                lemma_further(prefix, base, "input"@);
                json::lemma_well_keyed_member(b->Object_0, "input"@);
                law_leaf_pointers_address_strings(
                    root,
                    base,
                    v,
                    pointers::under_field(prefix, "input"@),
                );
            },
            None => {},
        }
    } else if kind == Some("document"@) && pointers::is_text_document(b) {
        lemma_string_below(root, base, prefix, "/source/data"@, b);
        reveal_strlit("/source/data");
        reveal_strlit("source");
        reveal_strlit("data");
        assert(prefix + "/source/data"@ =~= pointers::under_field(
            pointers::under_field(prefix, "source"@),
            "data"@,
        ));
    }
}

proof fn lemma_blocks_pointers(
    root: JsonView,
    base: Seq<char>,
    bs: Seq<JsonView>,
    n: nat,
    prefix: Seq<char>,
)
    requires
        pointer::pointee(root, prefix) == Some(JsonView::Array(bs)),
        json::well_keyed(JsonView::Array(bs)),
        text::starts_with(prefix, base),
    ensures
        all_strings(root, base, pointers::blocks_pointers(bs, n, prefix)),
    decreases n,
{
    if 0 < n <= bs.len() {
        let i = (n - 1) as nat;
        lemma_blocks_pointers(root, base, bs, i, prefix);
        pointer::law_under_index_addresses_the_element(root, prefix, i, bs);
        lemma_further(prefix, base, text::decimal(i));
        json::lemma_well_keyed_element(bs, n - 1);
        let at = pointer::under_index(prefix, i);
        lemma_block_pointers(root, base, bs[n - 1], at);
        lemma_all_add(
            root,
            base,
            pointers::blocks_pointers(bs, i, prefix),
            pointers::block_pointers(bs[n - 1], at),
        );
    }
}

proof fn lemma_calls_pointers(
    root: JsonView,
    base: Seq<char>,
    cs: Seq<JsonView>,
    n: nat,
    prefix: Seq<char>,
)
    requires
        pointer::pointee(root, prefix) == Some(JsonView::Array(cs)),
        text::starts_with(prefix, base),
    ensures
        all_strings(root, base, pointers::calls_pointers(cs, n, prefix)),
    decreases n,
{
    if 0 < n <= cs.len() {
        let i = (n - 1) as nat;
        lemma_calls_pointers(root, base, cs, i, prefix);
        if pointers::has_arguments(cs[n - 1]) {
            pointer::law_under_index_addresses_the_element(root, prefix, i, cs);
            lemma_further(prefix, base, text::decimal(i));
            let at = pointer::under_index(prefix, i);
            lemma_string_below(root, base, at, "/function/arguments"@, cs[n - 1]);
            reveal_strlit("/function/arguments");
            reveal_strlit("function");
            reveal_strlit("arguments");
            let p = pointers::under_field(pointers::under_field(at, "function"@), "arguments"@);
            assert(at + "/function/arguments"@ =~= p);
            let before = pointers::calls_pointers(cs, i, prefix);
            lemma_all_add(root, base, before, seq![p]);
            assert(before + seq![p] =~= pointers::calls_pointers(cs, n, prefix));
        }
    }
}

/// Every pointer of a message that stands at `prefix` addresses a string of it.
proof fn lemma_message_pointers(root: JsonView, base: Seq<char>, msg: JsonView, prefix: Seq<char>)
    requires
        pointer::pointee(root, prefix) == Some(msg),
        json::well_keyed(msg),
        text::starts_with(prefix, base),
    ensures
        all_strings(root, base, pointers::message_pointers(msg, prefix)),
{
    lemma_known_names();
    match msg.get("content"@) {
        Some(JsonView::Str(_)) => {
            lemma_string_field(root, base, prefix, "content"@, msg);
        },
        Some(JsonView::Array(bs)) => {
            lemma_field(prefix, "content"@, root, msg);
            lemma_further(prefix, base, "content"@);
            json::lemma_well_keyed_member(msg->Object_0, "content"@);
            lemma_blocks_pointers(
                root,
                base,
                bs,
                bs.len(),
                pointers::under_field(prefix, "content"@),
            );
        },
        _ => {},
    }
    let calls = match msg.get_array("tool_calls"@) {
        Some(cs) => {
            lemma_field(prefix, "tool_calls"@, root, msg);
            lemma_further(prefix, base, "tool_calls"@);
            let at = pointers::under_field(prefix, "tool_calls"@);
            lemma_calls_pointers(root, base, cs, cs.len(), at);
            pointers::calls_pointers(cs, cs.len(), at)
        },
        None => Seq::empty(),
    };
    lemma_all_add(root, base, pointers::content_pointers(msg, prefix), calls);
}

/// Every pointer to a message's text addresses a string of the request, and names the turn that the
/// message is.
pub proof fn law_message_pointers_address_strings(root: JsonView, ms: Seq<JsonView>, i: nat)
    requires
        json::well_keyed(root),
        root.get("messages"@) == Some(JsonView::Array(ms)),
        i < ms.len(),
    ensures
        ({
            let prefix = pointer::under_index("/messages"@, i);
            let ps = pointers::message_pointers(ms[i as int], prefix);
            &&& all_strings(root, prefix, ps)
            &&& i <= usize::MAX ==> forall|k: int|
                0 <= k < ps.len() ==> provider::turn_of(#[trigger] ps[k]) == Some(i as usize)
        }),
{
    let prefix = pointer::under_index("/messages"@, i);
    lemma_known_names();
    let empty = Seq::<char>::empty();
    lemma_field(empty, "messages"@, root, root);
    reveal_strlit("/messages");
    reveal_strlit("messages");
    assert(pointers::under_field(empty, "messages"@) =~= "/messages"@);
    json::lemma_well_keyed_member(root->Object_0, "messages"@);
    pointer::law_under_index_addresses_the_element(root, "/messages"@, i, ms);
    json::lemma_well_keyed_element(ms, i as int);
    lemma_self_start(prefix);
    lemma_message_pointers(root, prefix, ms[i as int], prefix);
    let ps = pointers::message_pointers(ms[i as int], prefix);
    if i <= usize::MAX {
        lemma_message_goes_on(ms[i as int], prefix);
        assert forall|k: int| 0 <= k < ps.len() implies provider::turn_of(#[trigger] ps[k]) == Some(
            i as usize,
        ) by {
            assert(goes_on(prefix, ps[k]));
            lemma_turn_of(i, ps[k]);
        }
    }
}

/// `p` goes on from `prefix` with one more token at least.
pub open spec fn goes_on(prefix: Seq<char>, p: Seq<char>) -> bool {
    text::starts_with(p, prefix.push('/'))
}

pub open spec fn all_go_on(prefix: Seq<char>, ps: Seq<Seq<char>>) -> bool {
    forall|k: int| 0 <= k < ps.len() ==> goes_on(prefix, #[trigger] ps[k])
}

proof fn lemma_all_go_on_add(prefix: Seq<char>, a: Seq<Seq<char>>, b: Seq<Seq<char>>)
    requires
        all_go_on(prefix, a),
        all_go_on(prefix, b),
    ensures
        all_go_on(prefix, a + b),
{
    let c = a + b;
    assert forall|k: int| 0 <= k < c.len() implies goes_on(prefix, #[trigger] c[k]) by {
        if k < a.len() {
            assert(c[k] == a[k]);
        } else {
            assert(c[k] == b[k - a.len()]);
        }
    }
}

/// A token further is one token more.
pub proof fn lemma_one_token(prefix: Seq<char>, name: Seq<char>)
    ensures
        goes_on(prefix, prefix.push('/') + name),
{
    lemma_self_start(prefix.push('/'));
    lemma_longer(prefix.push('/'), name, prefix.push('/'));
}

/// What goes on still does with one token more.
pub proof fn lemma_more_tokens(prefix: Seq<char>, p: Seq<char>, name: Seq<char>)
    requires
        goes_on(prefix, p),
    ensures
        goes_on(prefix, p.push('/') + name),
{
    lemma_further(p, prefix.push('/'), name);
}

proof fn lemma_leaves_go_on(prefix: Seq<char>, v: JsonView, p: Seq<char>)
    requires
        goes_on(prefix, p),
    ensures
        all_go_on(prefix, pointers::leaf_pointers(v, p)),
    decreases v, 0nat,
{
    match v {
        JsonView::Array(a) => {
            lemma_elements_go_on(prefix, a, a.len(), p);
        },
        JsonView::Object(e) => {
            lemma_members_go_on(prefix, e, e.len(), p);
        },
        _ => {},
    }
}

proof fn lemma_elements_go_on(prefix: Seq<char>, a: Seq<JsonView>, n: nat, p: Seq<char>)
    requires
        goes_on(prefix, p),
    ensures
        all_go_on(prefix, pointers::element_leaves(a, n, p)),
    decreases a, n,
{
    if 0 < n <= a.len() {
        let i = (n - 1) as nat;
        lemma_elements_go_on(prefix, a, i, p);
        lemma_more_tokens(prefix, p, text::decimal(i));
        let at = pointer::under_index(p, i);
        lemma_leaves_go_on(prefix, a[n - 1], at);
        lemma_all_go_on_add(
            prefix,
            pointers::element_leaves(a, i, p),
            pointers::leaf_pointers(a[n - 1], at),
        );
    }
}

proof fn lemma_members_go_on(prefix: Seq<char>, e: Members, n: nat, p: Seq<char>)
    requires
        goes_on(prefix, p),
    ensures
        all_go_on(prefix, pointers::member_leaves(e, n, p)),
    decreases e, n,
{
    if 0 < n <= e.len() {
        let i = (n - 1) as nat;
        lemma_members_go_on(prefix, e, i, p);
        lemma_more_tokens(prefix, p, pointer::escape(e[n - 1].0));
        let at = pointer::under_key(p, e[n - 1].0);
        assert(decreases_to!(e => e[n - 1].1));
        lemma_leaves_go_on(prefix, e[n - 1].1, at);
        lemma_all_go_on_add(
            prefix,
            pointers::member_leaves(e, i, p),
            pointers::leaf_pointers(e[n - 1].1, at),
        );
    }
}

proof fn lemma_inner_goes_on(prefix: Seq<char>, bs: Seq<JsonView>, n: nat, p: Seq<char>)
    requires
        goes_on(prefix, p),
    ensures
        all_go_on(prefix, pointers::inner_pointers(bs, n, p)),
    decreases n,
{
    if 0 < n <= bs.len() {
        let i = (n - 1) as nat;
        lemma_inner_goes_on(prefix, bs, i, p);
        lemma_more_tokens(prefix, p, text::decimal(i));
        lemma_more_tokens(prefix, pointer::under_index(p, i), "text"@);
    }
}

proof fn lemma_blocks_go_on(prefix: Seq<char>, bs: Seq<JsonView>, n: nat, p: Seq<char>)
    requires
        goes_on(prefix, p),
    ensures
        all_go_on(prefix, pointers::blocks_pointers(bs, n, p)),
    decreases n,
{
    if 0 < n <= bs.len() {
        let i = (n - 1) as nat;
        lemma_blocks_go_on(prefix, bs, i, p);
        lemma_more_tokens(prefix, p, text::decimal(i));
        let at = pointer::under_index(p, i);
        let b = bs[n - 1];
        lemma_more_tokens(prefix, at, "text"@);
        lemma_more_tokens(prefix, at, "content"@);
        lemma_more_tokens(prefix, at, "input"@);
        lemma_more_tokens(prefix, at, "source"@);
        lemma_more_tokens(prefix, pointers::under_field(at, "source"@), "data"@);
        match b.get("content"@) {
            Some(JsonView::Array(inner)) => {
                lemma_inner_goes_on(
                    prefix,
                    inner,
                    inner.len(),
                    pointers::under_field(at, "content"@),
                );
            },
            _ => {},
        }
        match b.get("input"@) {
            Some(v) => {
                lemma_leaves_go_on(prefix, v, pointers::under_field(at, "input"@));
            },
            None => {},
        }
        lemma_all_go_on_add(
            prefix,
            pointers::blocks_pointers(bs, i, p),
            pointers::block_pointers(b, at),
        );
    }
}

proof fn lemma_calls_go_on(prefix: Seq<char>, cs: Seq<JsonView>, n: nat, p: Seq<char>)
    requires
        goes_on(prefix, p),
    ensures
        all_go_on(prefix, pointers::calls_pointers(cs, n, p)),
    decreases n,
{
    if 0 < n <= cs.len() {
        let i = (n - 1) as nat;
        lemma_calls_go_on(prefix, cs, i, p);
        lemma_more_tokens(prefix, p, text::decimal(i));
        lemma_more_tokens(prefix, pointer::under_index(p, i), "function"@);
        lemma_more_tokens(
            prefix,
            pointers::under_field(pointer::under_index(p, i), "function"@),
            "arguments"@,
        );
    }
}

/// The pointers of a message go on from where it stands.
pub proof fn lemma_message_goes_on(msg: JsonView, prefix: Seq<char>)
    ensures
        all_go_on(prefix, pointers::message_pointers(msg, prefix)),
{
    lemma_one_token(prefix, "content"@);
    lemma_one_token(prefix, "tool_calls"@);
    match msg.get("content"@) {
        Some(JsonView::Array(bs)) => {
            lemma_blocks_go_on(prefix, bs, bs.len(), pointers::under_field(prefix, "content"@));
        },
        _ => {},
    }
    let calls = match msg.get_array("tool_calls"@) {
        Some(cs) => {
            let at = pointers::under_field(prefix, "tool_calls"@);
            lemma_calls_go_on(prefix, cs, cs.len(), at);
            pointers::calls_pointers(cs, cs.len(), at)
        },
        None => Seq::empty(),
    };
    lemma_all_go_on_add(prefix, pointers::content_pointers(msg, prefix), calls);
}

/// The digits before a slash are the first token.
pub proof fn lemma_first_token(digits: Seq<char>, rest: Seq<char>)
    requires
        text::all_digits(digits),
    ensures
        provider::first_token(digits.push('/') + rest) == digits,
    decreases digits.len(),
{
    let whole = digits.push('/') + rest;
    if digits.len() == 0 {
        assert(whole[0] == '/');
        assert(provider::first_token(whole) =~= digits);
    } else {
        let tail = digits.drop_first();
        assert forall|i: int| 0 <= i < tail.len() implies text::is_digit(#[trigger] tail[i]) by {
            assert(text::is_digit(digits[i + 1]));
        }
        lemma_first_token(tail, rest);
        assert(text::is_digit(digits[0]));
        assert(whole[0] == digits[0]);
        assert(whole.drop_first() =~= tail.push('/') + rest);
        assert(seq![digits[0]] + tail =~= digits);
    }
}

/// A pointer into message `i` addresses turn `i`.
pub proof fn lemma_turn_of(i: nat, p: Seq<char>)
    requires
        i <= usize::MAX,
        goes_on(pointer::under_index("/messages"@, i), p),
    ensures
        provider::turn_of(p) == Some(i as usize),
{
    let digits = text::decimal(i);
    text::lemma_decimal_round_trip(i);
    let base = pointer::under_index("/messages"@, i).push('/');
    reveal_strlit("/messages");
    reveal_strlit("/messages/");
    let rest = p.skip(base.len() as int);
    assert(p =~= base + rest) by {
        assert(p.subrange(0, base.len() as int) =~= base);
    }
    assert("/messages"@.push('/') =~= "/messages/"@);
    assert(p =~= "/messages/"@ + (digits.push('/') + rest));
    assert(p.subrange(0, "/messages/"@.len() as int) =~= "/messages/"@);
    let tail = p.skip("/messages/"@.len() as int);
    assert(tail =~= digits.push('/') + rest);
    lemma_first_token(digits, rest);
    assert(text::is_digit(digits[0]));
}

} // verus!
