//! What holds of the list of pointers to the text of a request.
use crate::json;
use crate::json::{JsonView, Members};
use crate::pointer;
use crate::provider;
use crate::provider::laws;
use crate::provider::pointers;
use crate::text;
use vstd::prelude::*;

verus! {

// ---------------------------------------------------------------------------------------------
// Branches
// ---------------------------------------------------------------------------------------------

/// `p` is `prefix`, or goes on from it.
pub open spec fn at_or_below(prefix: Seq<char>, p: Seq<char>) -> bool {
    p == prefix || laws::goes_on(prefix, p)
}

pub open spec fn all_at_or_below(prefix: Seq<char>, ps: Seq<Seq<char>>) -> bool {
    forall|k: int| 0 <= k < ps.len() ==> at_or_below(prefix, #[trigger] ps[k])
}

/// `p` goes on from `prefix` with one of the tokens.
pub open spec fn branches(prefix: Seq<char>, tokens: Seq<Seq<char>>, p: Seq<char>) -> bool {
    exists|i: int|
        0 <= i < tokens.len() && at_or_below(prefix.push('/') + #[trigger] tokens[i], p)
}

pub open spec fn all_branch(prefix: Seq<char>, tokens: Seq<Seq<char>>, ps: Seq<Seq<char>>) -> bool {
    forall|k: int| 0 <= k < ps.len() ==> branches(prefix, tokens, #[trigger] ps[k])
}

/// The positions below `n` as tokens.
pub open spec fn indices(n: nat) -> Seq<Seq<char>> {
    Seq::new(n, |i: int| text::decimal(i as nat))
}

/// The keys of the first `n` members as tokens.
pub open spec fn keys(e: Members, n: nat) -> Seq<Seq<char>> {
    Seq::new(n, |i: int| pointer::escape(e[i].0))
}

pub open spec fn no_slashes(tokens: Seq<Seq<char>>) -> bool {
    forall|i: int| 0 <= i < tokens.len() ==> !(#[trigger] tokens[i]).contains('/')
}

/// Pointers that part at a token are different.
proof fn lemma_apart(base: Seq<char>, a: Seq<char>, b: Seq<char>, p: Seq<char>, q: Seq<char>)
    requires
        a != b,
        !a.contains('/'),
        !b.contains('/'),
        at_or_below(base.push('/') + a, p),
        at_or_below(base.push('/') + b, q),
    ensures
        p != q,
{
    let pa = base.push('/') + a;
    let qb = base.push('/') + b;
    let m = base.len() + 1;
    assert forall|i: int| 0 <= i < a.len() implies p[m + i] == a[i] by {
        if p != pa {
            assert(p.subrange(0, pa.push('/').len() as int)[m + i] == pa.push('/')[m + i]);
        }
        assert(pa[m + i] == a[i]);
    }
    assert forall|i: int| 0 <= i < b.len() implies q[m + i] == b[i] by {
        if q != qb {
            assert(q.subrange(0, qb.push('/').len() as int)[m + i] == qb.push('/')[m + i]);
        }
        assert(qb[m + i] == b[i]);
    }
    if p == q {
        if a.len() == b.len() {
            assert(a =~= b);
        } else if a.len() < b.len() {
            assert(p != pa);
            assert(p.subrange(0, pa.push('/').len() as int)[pa.len() as int] == '/');
            assert(b.contains(b[a.len() as int]));
        } else {
            assert(q != qb);
            assert(q.subrange(0, qb.push('/').len() as int)[qb.len() as int] == '/');
            assert(a.contains(a[b.len() as int]));
        }
    }
}

/// What goes on from `prefix` with a token goes on from `prefix`.
proof fn lemma_below_a_token(prefix: Seq<char>, token: Seq<char>, p: Seq<char>)
    requires
        at_or_below(prefix.push('/') + token, p),
    ensures
        laws::goes_on(prefix, p),
{
    let whole = prefix.push('/') + token;
    let start = prefix.push('/');
    if p == whole {
        assert(p.subrange(0, start.len() as int) =~= start);
    } else {
        assert(p.subrange(0, whole.push('/').len() as int) == whole.push('/'));
        assert(p.subrange(0, start.len() as int) =~= whole.push('/').subrange(
            0,
            start.len() as int,
        ));
        assert(whole.push('/').subrange(0, start.len() as int) =~= start);
    }
}

/// What branches off goes on.
proof fn lemma_branches_are_below(prefix: Seq<char>, tokens: Seq<Seq<char>>, ps: Seq<Seq<char>>)
    requires
        all_branch(prefix, tokens, ps),
    ensures
        all_at_or_below(prefix, ps),
{
    assert forall|k: int| 0 <= k < ps.len() implies at_or_below(prefix, #[trigger] ps[k]) by {
        assert(branches(prefix, tokens, ps[k]));
        let i = choose|i: int|
            0 <= i < tokens.len() && at_or_below(prefix.push('/') + #[trigger] tokens[i], ps[k]);
        lemma_below_a_token(prefix, tokens[i], ps[k]);
    }
}

/// One more branch, at a token of its own, brings no pointer twice.
proof fn lemma_one_more_branch(
    prefix: Seq<char>,
    tokens: Seq<Seq<char>>,
    token: Seq<char>,
    before: Seq<Seq<char>>,
    now: Seq<Seq<char>>,
)
    requires
        no_slashes(tokens),
        !token.contains('/'),
        !tokens.contains(token),
        all_branch(prefix, tokens, before),
        before.no_duplicates(),
        all_at_or_below(prefix.push('/') + token, now),
        now.no_duplicates(),
    ensures
        all_branch(prefix, tokens.push(token), before + now),
        (before + now).no_duplicates(),
        no_slashes(tokens.push(token)),
{
    let more = tokens.push(token);
    let all = before + now;
    assert forall|k: int| 0 <= k < all.len() implies branches(prefix, more, #[trigger] all[k]) by {
        if k < before.len() {
            assert(branches(prefix, tokens, before[k]));
            let i = choose|i: int|
                0 <= i < tokens.len() && at_or_below(
                    prefix.push('/') + #[trigger] tokens[i],
                    before[k],
                );
            assert(at_or_below(prefix.push('/') + more[i], all[k]));
        } else {
            assert(at_or_below(prefix.push('/') + token, now[k - before.len()]));
            assert(more[tokens.len() as int] == token);
            assert(at_or_below(prefix.push('/') + more[tokens.len() as int], all[k]));
        }
    }
    assert forall|j: int, k: int| 0 <= j < all.len() && 0 <= k < all.len() && j != k implies all[j]
        != all[k] by {
        if j < before.len() && k >= before.len() {
            lemma_branch_apart(prefix, tokens, token, before[j], now[k - before.len()]);
        } else if k < before.len() && j >= before.len() {
            lemma_branch_apart(prefix, tokens, token, before[k], now[j - before.len()]);
        } else if j < before.len() {
            assert(before[j] != before[k]);
        } else {
            assert(now[j - before.len()] != now[k - before.len()]);
        }
    }
}

proof fn lemma_branch_apart(
    prefix: Seq<char>,
    tokens: Seq<Seq<char>>,
    token: Seq<char>,
    p: Seq<char>,
    q: Seq<char>,
)
    requires
        no_slashes(tokens),
        !token.contains('/'),
        !tokens.contains(token),
        branches(prefix, tokens, p),
        at_or_below(prefix.push('/') + token, q),
    ensures
        p != q,
{
    let i = choose|i: int|
        0 <= i < tokens.len() && at_or_below(prefix.push('/') + #[trigger] tokens[i], p);
    assert(tokens.contains(tokens[i]));
    lemma_apart(prefix, tokens[i], token, p, q);
}

/// A position is a token of its own.
proof fn lemma_next_index(n: nat)
    ensures
        no_slashes(indices(n)),
        !text::decimal(n).contains('/'),
        !indices(n).contains(text::decimal(n)),
        indices(n).push(text::decimal(n)) == indices(n + 1),
{
    assert forall|i: nat| !(#[trigger] text::decimal(i)).contains('/') by {
        text::lemma_decimal_round_trip(i);
        let d = text::decimal(i);
        if d.contains('/') {
            let k = choose|k: int| 0 <= k < d.len() && d[k] == '/';
            assert(text::is_digit(d[k]));
        }
    }
    text::lemma_decimal_round_trip(n);
    if indices(n).contains(text::decimal(n)) {
        let i = choose|i: int| 0 <= i < n && indices(n)[i] == text::decimal(n);
        text::lemma_decimal_round_trip(i as nat);
    }
    assert(indices(n).push(text::decimal(n)) =~= indices(n + 1));
}

/// What stands under the next position comes on top.
proof fn lemma_one_more_index(
    prefix: Seq<char>,
    n: nat,
    before: Seq<Seq<char>>,
    now: Seq<Seq<char>>,
)
    requires
        all_branch(prefix, indices(n), before),
        before.no_duplicates(),
        all_at_or_below(pointer::under_index(prefix, n), now),
        now.no_duplicates(),
    ensures
        all_branch(prefix, indices(n + 1), before + now),
        (before + now).no_duplicates(),
{
    lemma_next_index(n);
    lemma_one_more_branch(prefix, indices(n), text::decimal(n), before, now);
}

/// One pointer below another.
proof fn lemma_single(prefix: Seq<char>, p: Seq<char>)
    requires
        at_or_below(prefix, p),
    ensures
        all_at_or_below(prefix, seq![p]),
        seq![p].no_duplicates(),
{
}

// ---------------------------------------------------------------------------------------------
// The lists
// ---------------------------------------------------------------------------------------------

/// No string under a value is pointed to twice.
pub proof fn law_leaf_pointers_are_distinct(v: JsonView, p: Seq<char>)
    requires
        json::well_keyed(v),
    ensures
        pointers::leaf_pointers(v, p).no_duplicates(),
        all_at_or_below(p, pointers::leaf_pointers(v, p)),
    decreases v, 0nat,
{
    match v {
        JsonView::Str(_) => {
            lemma_single(p, p);
        },
        JsonView::Array(a) => {
            lemma_elements_distinct(a, a.len(), p);
            lemma_branches_are_below(p, indices(a.len()), pointers::leaf_pointers(v, p));
        },
        JsonView::Object(e) => {
            lemma_members_distinct(e, e.len(), p);
            lemma_branches_are_below(p, keys(e, e.len()), pointers::leaf_pointers(v, p));
        },
        _ => {},
    }
}

proof fn lemma_elements_distinct(a: Seq<JsonView>, n: nat, p: Seq<char>)
    requires
        json::well_keyed(JsonView::Array(a)),
        n <= a.len(),
    ensures
        pointers::element_leaves(a, n, p).no_duplicates(),
        all_branch(p, indices(n), pointers::element_leaves(a, n, p)),
    decreases a, n,
{
    if n > 0 {
        let i = (n - 1) as nat;
        lemma_elements_distinct(a, i, p);
        json::lemma_well_keyed_element(a, n - 1);
        let at = pointer::under_index(p, i);
        law_leaf_pointers_are_distinct(a[n - 1], at);
        lemma_one_more_index(
            p,
            i,
            pointers::element_leaves(a, i, p),
            pointers::leaf_pointers(a[n - 1], at),
        );
    }
}

proof fn lemma_members_distinct(e: Members, n: nat, p: Seq<char>)
    requires
        json::well_keyed(JsonView::Object(e)),
        n <= e.len(),
    ensures
        pointers::member_leaves(e, n, p).no_duplicates(),
        all_branch(p, keys(e, n), pointers::member_leaves(e, n, p)),
        no_slashes(keys(e, n)),
    decreases e, n,
{
    if n > 0 {
        let i = (n - 1) as nat;
        let key = e[n - 1].0;
        lemma_members_distinct(e, i, p);
        let whole = JsonView::Object(e);
        assert(whole->Object_0 == e);
        assert(json::well_keyed(e[n - 1].1));
        assert(decreases_to!(e => e[n - 1].1));
        let at = pointer::under_key(p, key);
        law_leaf_pointers_are_distinct(e[n - 1].1, at);
        pointer::lemma_escape_has_no_slash(key);
        if keys(e, i).contains(pointer::escape(key)) {
            let k = choose|k: int| 0 <= k < i && keys(e, i)[k] == pointer::escape(key);
            pointer::law_unescape_reverses_escape(e[k].0);
            pointer::law_unescape_reverses_escape(key);
            assert(e[k].0 != e[n - 1].0);
        }
        lemma_one_more_branch(
            p,
            keys(e, i),
            pointer::escape(key),
            pointers::member_leaves(e, i, p),
            pointers::leaf_pointers(e[n - 1].1, at),
        );
        assert(keys(e, i).push(pointer::escape(key)) =~= keys(e, n));
    }
}

proof fn lemma_inner_distinct(bs: Seq<JsonView>, n: nat, p: Seq<char>)
    requires
        n <= bs.len(),
    ensures
        pointers::inner_pointers(bs, n, p).no_duplicates(),
        all_branch(p, indices(n), pointers::inner_pointers(bs, n, p)),
    decreases n,
{
    if n > 0 {
        let i = (n - 1) as nat;
        lemma_inner_distinct(bs, i, p);
        let before = pointers::inner_pointers(bs, i, p);
        let at = pointer::under_index(p, i);
        let none = Seq::<Seq<char>>::empty();
        let text = pointers::under_field(at, "text"@);
        if pointers::is_text_block(bs[n - 1]) {
            laws::lemma_one_token(at, "text"@);
            lemma_single(at, text);
            lemma_one_more_index(p, i, before, seq![text]);
            assert(before + seq![text] =~= before.push(text));
        } else {
            lemma_one_more_index(p, i, before, none);
            assert(before + none =~= before);
        }
    }
}

proof fn lemma_block_distinct(b: JsonView, p: Seq<char>)
    requires
        json::well_keyed(b),
    ensures
        pointers::block_pointers(b, p).no_duplicates(),
        all_at_or_below(p, pointers::block_pointers(b, p)),
{
    let ps = pointers::block_pointers(b, p);
    laws::lemma_one_token(p, "text"@);
    laws::lemma_one_token(p, "content"@);
    laws::lemma_one_token(p, "source"@);
    laws::lemma_more_tokens(p, pointers::under_field(p, "source"@), "data"@);
    let content = pointers::under_field(p, "content"@);
    let input = pointers::under_field(p, "input"@);
    if pointers::is_text_block(b) {
        lemma_single(p, pointers::under_field(p, "text"@));
    } else if b.get_str("type"@) == Some("tool_result"@) {
        match b.get("content"@) {
            Some(JsonView::Str(_)) => {
                lemma_single(p, content);
            },
            Some(JsonView::Array(inner)) => {
                lemma_inner_distinct(inner, inner.len(), content);
                lemma_branches_are_below(content, indices(inner.len()), ps);
                lemma_all_below_a_token(p, "content"@, ps);
            },
            _ => {},
        }
    } else if b.get_str("type"@) == Some("tool_use"@) {
        match b.get("input"@) {
            Some(v) => {
                json::lemma_well_keyed_member(b->Object_0, "input"@);
                law_leaf_pointers_are_distinct(v, input);
                lemma_all_below_a_token(p, "input"@, ps);
            },
            None => {},
        }
    } else if ps.len() > 0 {
        lemma_single(p, ps[0]);
        assert(ps =~= seq![ps[0]]);
    }
}

proof fn lemma_all_below_a_token(prefix: Seq<char>, token: Seq<char>, ps: Seq<Seq<char>>)
    requires
        all_at_or_below(prefix.push('/') + token, ps),
    ensures
        all_at_or_below(prefix, ps),
{
    assert forall|k: int| 0 <= k < ps.len() implies at_or_below(prefix, #[trigger] ps[k]) by {
        lemma_below_a_token(prefix, token, ps[k]);
    }
}

proof fn lemma_blocks_distinct(bs: Seq<JsonView>, n: nat, p: Seq<char>)
    requires
        json::well_keyed(JsonView::Array(bs)),
        n <= bs.len(),
    ensures
        pointers::blocks_pointers(bs, n, p).no_duplicates(),
        all_branch(p, indices(n), pointers::blocks_pointers(bs, n, p)),
    decreases n,
{
    if n > 0 {
        let i = (n - 1) as nat;
        lemma_blocks_distinct(bs, i, p);
        json::lemma_well_keyed_element(bs, n - 1);
        let at = pointer::under_index(p, i);
        lemma_block_distinct(bs[n - 1], at);
        lemma_one_more_index(
            p,
            i,
            pointers::blocks_pointers(bs, i, p),
            pointers::block_pointers(bs[n - 1], at),
        );
    }
}

proof fn lemma_calls_distinct(cs: Seq<JsonView>, n: nat, p: Seq<char>)
    requires
        n <= cs.len(),
    ensures
        pointers::calls_pointers(cs, n, p).no_duplicates(),
        all_branch(p, indices(n), pointers::calls_pointers(cs, n, p)),
    decreases n,
{
    if n > 0 {
        let i = (n - 1) as nat;
        lemma_calls_distinct(cs, i, p);
        let before = pointers::calls_pointers(cs, i, p);
        let at = pointer::under_index(p, i);
        let none = Seq::<Seq<char>>::empty();
        let function = pointers::under_field(at, "function"@);
        let arguments = pointers::under_field(function, "arguments"@);
        if pointers::has_arguments(cs[n - 1]) {
            laws::lemma_one_token(at, "function"@);
            laws::lemma_more_tokens(at, function, "arguments"@);
            lemma_single(at, arguments);
            lemma_one_more_index(p, i, before, seq![arguments]);
            assert(before + seq![arguments] =~= before.push(arguments));
        } else {
            lemma_one_more_index(p, i, before, none);
            assert(before + none =~= before);
        }
    }
}

proof fn lemma_message_distinct(msg: JsonView, p: Seq<char>)
    requires
        json::well_keyed(msg),
    ensures
        pointers::message_pointers(msg, p).no_duplicates(),
        all_at_or_below(p, pointers::message_pointers(msg, p)),
{
    let content = pointers::content_pointers(msg, p);
    let at = pointers::under_field(p, "content"@);
    match msg.get("content"@) {
        Some(JsonView::Str(_)) => {
            lemma_single(at, at);
        },
        Some(JsonView::Array(bs)) => {
            json::lemma_well_keyed_member(msg->Object_0, "content"@);
            lemma_blocks_distinct(bs, bs.len(), at);
            lemma_branches_are_below(at, indices(bs.len()), content);
        },
        _ => {},
    }
    let under = pointers::under_field(p, "tool_calls"@);
    let calls = match msg.get_array("tool_calls"@) {
        Some(cs) => {
            lemma_calls_distinct(cs, cs.len(), under);
            let ps = pointers::calls_pointers(cs, cs.len(), under);
            lemma_branches_are_below(under, indices(cs.len()), ps);
            ps
        },
        None => Seq::empty(),
    };
    reveal_strlit("content");
    reveal_strlit("tool_calls");
    assert("content"@.len() != "tool_calls"@.len());
    assert(!"content"@.contains('/') && !"tool_calls"@.contains('/'));
    let none = Seq::<Seq<char>>::empty();
    lemma_one_more_branch(p, none, "content"@, none, content);
    assert(none + content =~= content);
    assert(none.push("content"@) =~= seq!["content"@]);
    lemma_one_more_branch(p, seq!["content"@], "tool_calls"@, content, calls);
    lemma_branches_are_below(
        p,
        seq!["content"@].push("tool_calls"@),
        pointers::message_pointers(msg, p),
    );
}

proof fn lemma_messages_distinct(ms: Seq<JsonView>, n: nat)
    requires
        json::well_keyed(JsonView::Array(ms)),
        n <= ms.len(),
    ensures
        pointers::messages_pointers(ms, n).no_duplicates(),
        all_branch("/messages"@, indices(n), pointers::messages_pointers(ms, n)),
    decreases n,
{
    if n > 0 {
        let i = (n - 1) as nat;
        lemma_messages_distinct(ms, i);
        json::lemma_well_keyed_element(ms, n - 1);
        let at = pointer::under_index("/messages"@, i);
        lemma_message_distinct(ms[n - 1], at);
        lemma_one_more_index(
            "/messages"@,
            i,
            pointers::messages_pointers(ms, i),
            pointers::message_pointers(ms[n - 1], at),
        );
    }
}

/// Every pointer of the list belongs to a turn below `n`, and the turns ascend.
pub open spec fn turns_ascend(ps: Seq<Seq<char>>, n: nat) -> bool {
    &&& forall|k: int|
        0 <= k < ps.len() ==> provider::turn_of(#[trigger] ps[k]) is Some && provider::turn_of(
            ps[k],
        )->0 < n
    &&& forall|j: int, k: int|
        0 <= j <= k < ps.len() ==> provider::turn_of(#[trigger] ps[j])->0 <= provider::turn_of(
            #[trigger] ps[k],
        )->0
}

proof fn lemma_turns_ascend(ms: Seq<JsonView>, n: nat)
    requires
        n <= ms.len(),
        n <= usize::MAX,
    ensures
        turns_ascend(pointers::messages_pointers(ms, n), n),
    decreases n,
{
    if n > 0 {
        let i = (n - 1) as nat;
        lemma_turns_ascend(ms, i);
        let at = pointer::under_index("/messages"@, i);
        let before = pointers::messages_pointers(ms, i);
        let now = pointers::message_pointers(ms[n - 1], at);
        let all = before + now;
        laws::lemma_message_goes_on(ms[n - 1], at);
        assert forall|k: int| 0 <= k < all.len() implies provider::turn_of(#[trigger] all[k]) is Some
            && provider::turn_of(all[k])->0 < n && (k >= before.len() ==> provider::turn_of(all[k])->0
            == i) by {
            if k < before.len() {
                assert(all[k] == before[k]);
            } else {
                assert(all[k] == now[k - before.len()]);
                assert(laws::goes_on(at, now[k - before.len()]));
                laws::lemma_turn_of(i, all[k]);
            }
        }
        assert forall|j: int, k: int| 0 <= j <= k < all.len() implies provider::turn_of(
            #[trigger] all[j],
        )->0 <= provider::turn_of(#[trigger] all[k])->0 by {
            if k < before.len() {
                assert(all[j] == before[j] && all[k] == before[k]);
            }
        }
    }
}

/// The pointers to the text of the messages name no text twice, and they come in the order of the
/// turns.
pub proof fn law_message_pointers_are_distinct_and_in_order(ms: Seq<JsonView>)
    requires
        json::well_keyed(JsonView::Array(ms)),
        ms.len() <= usize::MAX,
    ensures
        pointers::messages_pointers(ms, ms.len()).no_duplicates(),
        turns_ascend(pointers::messages_pointers(ms, ms.len()), ms.len()),
{
    lemma_messages_distinct(ms, ms.len());
    lemma_turns_ascend(ms, ms.len());
}

} // verus!
