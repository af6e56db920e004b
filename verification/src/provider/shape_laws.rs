//! What the shape of a request tells, and what an edit leaves alone.
use crate::json;
use crate::json::JsonView;
use crate::pointer;
use crate::provider;
use crate::provider::laws;
use crate::provider::pointers;
use crate::provider::{ProviderKind, Role};
use crate::text;
use vstd::prelude::*;

verus! {

// ---------------------------------------------------------------------------------------------
// Detection
// ---------------------------------------------------------------------------------------------

/// The body has the member.
pub open spec fn has(body: JsonView, key: Seq<char>) -> bool {
    body.get(key) is Some
}

/// The body has a member that only Google's requests have.
pub open spec fn is_googles(body: JsonView) -> bool {
    has(body, "contents"@) || has(body, "systemInstruction"@) || has(body, "system_instruction"@)
        || has(body, "generationConfig"@) || has(body, "generation_config"@)
}

/// The body has a member that only Anthropic's requests have.
pub open spec fn is_anthropics(body: JsonView) -> bool {
    has(body, "system"@) || has(body, "stop_sequences"@) || has(body, "anthropic_version"@)
}

/// Some message of the body is the system's.
pub open spec fn has_message_of_system(body: JsonView) -> bool {
    body.get_array("messages"@) is Some && exists|i: int|
        0 <= i < body.get_array("messages"@)->0.len() && (#[trigger] body.get_array(
            "messages"@,
        )->0[i]).get_str("role"@) == Some("system"@)
}

proof fn lemma_has(body: JsonView, key: Seq<char>)
    ensures
        has(body, key) == (body is Object && json::has_key(body->Object_0, key)),
{
    if body is Object {
        json::lemma_lookup_has_key(body->Object_0, key);
    }
}

proof fn lemma_marks(body: JsonView)
    ensures
        body is Object ==> (provider::detected(body) == if is_googles(body) {
            Some(ProviderKind::Google)
        } else if is_anthropics(body) {
            Some(ProviderKind::Anthropic)
        } else if has(body, "input"@) && (has(body, "instructions"@) || has(
            body,
            "max_output_tokens"@,
        )) || has(body, "max_completion_tokens"@) || has(body, "response_format"@)
            || has_message_of_system(body) {
            Some(ProviderKind::OpenAi)
        } else {
            None
        }),
        !(body is Object) ==> provider::detected(body) is None && !is_googles(body)
            && !is_anthropics(body),
{
    lemma_has(body, "contents"@);
    lemma_has(body, "systemInstruction"@);
    lemma_has(body, "system_instruction"@);
    lemma_has(body, "generationConfig"@);
    lemma_has(body, "generation_config"@);
    lemma_has(body, "system"@);
    lemma_has(body, "stop_sequences"@);
    lemma_has(body, "anthropic_version"@);
    lemma_has(body, "input"@);
    lemma_has(body, "instructions"@);
    lemma_has(body, "max_output_tokens"@);
    lemma_has(body, "max_completion_tokens"@);
    lemma_has(body, "response_format"@);
    match body.get_array("messages"@) {
        Some(ms) => {
            if provider::has_system_message(ms) {
                let i = choose|i: int|
                    0 <= i < ms.len() && (#[trigger] ms[i]).get_str("role"@) == Some("system"@);
                assert(body.get_array("messages"@)->0[i].get_str("role"@) == Some("system"@));
            }
            if has_message_of_system(body) {
                let i = choose|i: int|
                    0 <= i < body.get_array("messages"@)->0.len() && (#[trigger] body.get_array(
                        "messages"@,
                    )->0[i]).get_str("role"@) == Some("system"@);
                assert(ms[i].get_str("role"@) == Some("system"@));
            }
        },
        None => {},
    }
}

/// A body is Google's where it has one of Google's own members, and nowhere else.
pub proof fn law_google_is_told_by_its_members(body: JsonView)
    ensures
        provider::detected(body) == Some(ProviderKind::Google) <==> is_googles(body),
{
    lemma_marks(body);
}

/// A body is Anthropic's where it has one of Anthropic's own members and none of Google's, and nowhere
/// else.
pub proof fn law_anthropic_is_told_by_its_members(body: JsonView)
    ensures
        provider::detected(body) == Some(ProviderKind::Anthropic) <==> is_anthropics(body)
            && !is_googles(body),
{
    lemma_marks(body);
}

/// A body without the others' members is OpenAI's where it has one of OpenAI's own members, the shape
/// of a Responses request, or a message of the system; where it has none of these it is nobody's.
pub proof fn law_openai_is_told_by_its_shape(body: JsonView)
    ensures
        ({
            let own = has(body, "max_completion_tokens"@) || has(body, "response_format"@);
            let responses = has(body, "input"@) && (has(body, "instructions"@) || has(
                body,
                "max_output_tokens"@,
            ));
            let others = is_googles(body) || is_anthropics(body);
            &&& provider::detected(body) == Some(ProviderKind::OpenAi) <==> !others && (own
                || responses || has_message_of_system(body))
            &&& provider::detected(body) is None <==> !others && !own && !responses
                && !has_message_of_system(body)
        }),
{
    lemma_marks(body);
}

// ---------------------------------------------------------------------------------------------
// Roles and turns
// ---------------------------------------------------------------------------------------------

/// Each provider's words for a role mean that role, and any other word means a user.
pub proof fn law_roles_have_their_words(s: Seq<char>)
    ensures
        provider::role_of(s) == Role::System <==> s == "system"@ || s == "developer"@,
        provider::role_of(s) == Role::Assistant <==> s == "assistant"@ || s == "model"@,
        provider::role_of(s) == Role::Tool <==> s == "tool"@ || s == "function"@,
{
    reveal_strlit("system");
    reveal_strlit("developer");
    reveal_strlit("assistant");
    reveal_strlit("model");
    reveal_strlit("tool");
    reveal_strlit("function");
    assert("system"@.len() == 6 && "developer"@.len() == 9 && "assistant"@.len() == 9
        && "model"@.len() == 5 && "tool"@.len() == 4 && "function"@.len() == 8);
    assert("developer"@[0] == 'd' && "assistant"@[0] == 'a');
}

/// The names of the lists of turns.
pub open spec fn lists_turns(list: Seq<char>) -> bool {
    list == "/messages/"@ || list == "/input/"@ || list == "/contents/"@
}

/// A pointer into turn `i` belongs to turn `i`, in each of the lists that hold turns.
pub proof fn law_pointers_belong_to_their_turn(list: Seq<char>, i: nat, rest: Seq<char>)
    requires
        lists_turns(list),
        i <= usize::MAX,
    ensures
        provider::turn_of(list + text::decimal(i).push('/') + rest) == Some(i as usize),
{
    let digits = text::decimal(i);
    let p = list + digits.push('/') + rest;
    text::lemma_decimal_round_trip(i);
    lemma_list_names();
    assert(p.subrange(0, list.len() as int) =~= list);
    let tail = p.skip(list.len() as int);
    assert(tail =~= digits.push('/') + rest);
    if list != "/messages/"@ {
        if text::starts_with(p, "/messages/"@) {
            assert(p.subrange(0, 10)[1] == p[1]);
        }
    }
    if list == "/contents/"@ {
        if text::starts_with(p, "/input/"@) {
            assert(p.subrange(0, 7)[1] == p[1]);
        }
    }
    laws::lemma_first_token(digits, rest);
    assert(text::is_digit(digits[0]));
}

proof fn lemma_list_names()
    ensures
        "/messages/"@.len() == 10,
        "/input/"@.len() == 7,
        "/contents/"@.len() == 10,
        "/messages/"@[1] == 'm',
        "/input/"@[1] == 'i',
        "/contents/"@[1] == 'c',
{
    reveal_strlit("/messages/");
    reveal_strlit("/input/");
    reveal_strlit("/contents/");
}

/// What stands behind the name of the list, up to a slash or the end, is the number of the turn: digits,
/// with at most a plus before them. Anything else is no turn.
pub proof fn law_turns_are_numbered(list: Seq<char>, tok: Seq<char>, rest: Seq<char>)
    requires
        lists_turns(list),
        !tok.contains('/'),
    ensures
        ({
            let digits = if tok.len() > 0 && tok[0] == '+' {
                tok.drop_first()
            } else {
                tok
            };
            let n = text::decimal_value(digits);
            let number = digits.len() > 0 && text::all_digits(digits) && n <= usize::MAX;
            &&& number ==> provider::turn_of(list + tok) == Some(n as usize) && provider::turn_of(
                list + tok.push('/') + rest,
            ) == Some(n as usize)
            &&& !number ==> provider::turn_of(list + tok) is None && provider::turn_of(
                list + tok.push('/') + rest,
            ) is None
        }),
{
    lemma_token_ends(tok, rest);
    lemma_turn_part(list, tok);
    lemma_turn_part(list, tok.push('/') + rest);
    assert(list + tok.push('/') + rest =~= list + (tok.push('/') + rest));
}

proof fn lemma_turn_part(list: Seq<char>, rest: Seq<char>)
    requires
        lists_turns(list),
    ensures
        provider::turn_part(list + rest) == Some(rest),
{
    let p = list + rest;
    lemma_list_names();
    assert(p.subrange(0, list.len() as int) =~= list);
    assert(p.skip(list.len() as int) =~= rest);
    if list != "/messages/"@ {
        if text::starts_with(p, "/messages/"@) {
            assert(p.subrange(0, 10)[1] == p[1]);
        }
    }
    if list == "/contents/"@ {
        if text::starts_with(p, "/input/"@) {
            assert(p.subrange(0, 7)[1] == p[1]);
        }
    }
}

proof fn lemma_token_ends(tok: Seq<char>, rest: Seq<char>)
    requires
        !tok.contains('/'),
    ensures
        provider::first_token(tok) == tok,
        provider::first_token(tok.push('/') + rest) == tok,
    decreases tok.len(),
{
    let whole = tok.push('/') + rest;
    if tok.len() == 0 {
        assert(whole[0] == '/');
        assert(provider::first_token(whole) =~= tok);
        assert(provider::first_token(tok) =~= tok);
    } else {
        let tail = tok.drop_first();
        assert(!tail.contains('/')) by {
            if tail.contains('/') {
                let i = choose|i: int| 0 <= i < tail.len() && tail[i] == '/';
                assert(tok[i + 1] == '/');
            }
        }
        assert(tok[0] != '/') by {
            assert(tok.contains(tok[0]));
        }
        lemma_token_ends(tail, rest);
        assert(whole.drop_first() =~= tail.push('/') + rest);
        assert(seq![tok[0]] + tail =~= tok);
    }
}

/// A pointer into none of the lists that hold turns belongs to no turn.
pub proof fn law_other_pointers_belong_to_no_turn(p: Seq<char>)
    requires
        !text::starts_with(p, "/messages/"@),
        !text::starts_with(p, "/input/"@),
        !text::starts_with(p, "/contents/"@),
    ensures
        provider::turn_of(p) is None,
{
}

/// The role of a pointer into a message is that of the message; it has none where the message says
/// none, or is not there.
pub proof fn law_pointers_have_the_role_of_their_message(
    body: JsonView,
    ms: Seq<JsonView>,
    list: Seq<char>,
    i: nat,
    rest: Seq<char>,
)
    requires
        body.get("messages"@) == Some(JsonView::Array(ms)),
        lists_turns(list),
        i <= usize::MAX,
    ensures
        i < ms.len() ==> provider::messages_role_at(body, list + text::decimal(i).push('/') + rest)
            == match ms[i as int].get_str("role"@) {
            Some(r) => Some(provider::role_of(r)),
            None => None,
        },
        i >= ms.len() ==> provider::messages_role_at(
            body,
            list + text::decimal(i).push('/') + rest,
        ) is None,
{
    let empty = Seq::<char>::empty();
    law_pointers_belong_to_their_turn(list, i, rest);
    laws::lemma_known_names();
    laws::lemma_field(empty, "messages"@, body, body);
    reveal_strlit("/messages");
    reveal_strlit("/messages/");
    reveal_strlit("messages");
    reveal_strlit("role");
    reveal_strlit("/role");
    assert(pointers::under_field(empty, "messages"@) =~= "/messages"@);
    let at = pointer::under_index("/messages"@, i);
    pointer::lemma_plain_key("role"@);
    let whole = "/messages/"@ + text::decimal(i) + "/role"@;
    assert(whole =~= pointers::under_field(at, "role"@));
    if i < ms.len() {
        pointer::law_under_index_addresses_the_element(body, "/messages"@, i, ms);
        let msg = ms[i as int];
        if msg is Object {
            laws::lemma_field(at, "role"@, body, msg);
        } else {
            pointer::lemma_one_more_token(body, at, "role"@, msg);
            pointer::law_unescape_reverses_escape("role"@);
        }
    } else {
        pointer::law_nothing_stands_below_a_leaf(
            body,
            "/messages"@,
            JsonView::Array(ms),
            empty,
            i,
        );
        pointer::lemma_escape_has_no_slash("role"@);
        pointer::law_nothing_leads_nowhere(body, at, "role"@);
    }
}

/// A pointer that belongs to no turn has no role.
pub proof fn law_no_turn_no_role(body: JsonView, p: Seq<char>)
    requires
        provider::turn_of(p) is None,
    ensures
        provider::messages_role_at(body, p) is None,
{
}

// ---------------------------------------------------------------------------------------------
// Edits
// ---------------------------------------------------------------------------------------------

/// A stop sequence comes after those that are there, each of which stays, a bare one among them; no
/// other member changes, and what is no object stays as it is.
pub proof fn law_stops_are_added_last(
    root: JsonView,
    key: Seq<char>,
    stop: Seq<char>,
    other: Seq<char>,
)
    ensures
        ({
            let after = provider::with_member(root, key, provider::more_stops(root.get(key), stop));
            &&& !(root is Object) ==> after == root
            &&& root is Object ==> {
                &&& after.get_array(key) is Some
                &&& after.get_array(key)->0.len() > 0
                &&& after.get_array(key)->0.last() == JsonView::Str(stop)
                &&& after.get_array(key)->0.drop_last() == match root.get(key) {
                    Some(JsonView::Array(a)) => a,
                    Some(JsonView::Str(s)) => seq![JsonView::Str(s)],
                    _ => Seq::<JsonView>::empty(),
                }
                &&& other != key ==> after.get(other) == root.get(other)
            }
        }),
{
    let value = provider::more_stops(root.get(key), stop);
    if root is Object {
        json::law_only_the_put_member_changes(root->Object_0, key, value, other);
        let list = value->Array_0;
        assert(list.drop_last() =~= match root.get(key) {
            Some(JsonView::Array(a)) => a,
            Some(JsonView::Str(s)) => seq![JsonView::Str(s)],
            _ => Seq::<JsonView>::empty(),
        });
    }
}

/// The flags that are left once `n` tools have had theirs.
pub open spec fn flags_after(keep: Seq<bool>, n: nat) -> Seq<bool> {
    if n <= keep.len() {
        keep.skip(n as int)
    } else {
        Seq::empty()
    }
}

proof fn lemma_tools_front(a: Seq<JsonView>, b: Seq<JsonView>, keep: Seq<bool>, n: nat)
    requires
        n <= a.len(),
    ensures
        provider::kept_tools(a + b, keep, n) == provider::kept_tools(a, keep, n),
    decreases n,
{
    if n > 0 {
        lemma_tools_front(a, b, keep, (n - 1) as nat);
    }
}

proof fn lemma_tools_add(a: Seq<JsonView>, b: Seq<JsonView>, keep: Seq<bool>, n: nat)
    requires
        n <= b.len(),
    ensures
        provider::kept_tools(a + b, keep, a.len() + n) == provider::kept_tools(a, keep, a.len())
            + provider::kept_tools(b, flags_after(keep, a.len()), n),
    decreases n,
{
    let rest = flags_after(keep, a.len());
    let front = provider::kept_tools(a, keep, a.len());
    if n == 0 {
        lemma_tools_front(a, b, keep, a.len());
        assert(front + provider::kept_tools(b, rest, 0) =~= front);
    } else {
        lemma_tools_add(a, b, keep, (n - 1) as nat);
        let tail = provider::kept_tools(b, rest, (n - 1) as nat);
        assert((a + b)[a.len() + n - 1] == b[n - 1]);
        assert((front + tail).push(b[n - 1]) =~= front + tail.push(b[n - 1]));
    }
}

/// Whether a tool stays is its own affair: the tools that stay of two lists are those of the first and
/// then those of the second, each by its own flags; one tool stays unless its flag is false.
pub proof fn law_tools_stay_one_by_one(a: Seq<JsonView>, b: Seq<JsonView>, keep: Seq<bool>, t: JsonView)
    ensures
        provider::kept_tools(a + b, keep, (a + b).len()) == provider::kept_tools(a, keep, a.len())
            + provider::kept_tools(b, flags_after(keep, a.len()), b.len()),
        provider::kept_tools(seq![t], keep, 1) == if keep.len() > 0 && !keep[0] {
            Seq::<JsonView>::empty()
        } else {
            seq![t]
        },
{
    lemma_tools_add(a, b, keep, b.len());
    lemma_tools_front(a, b, keep, a.len());
    assert(provider::kept_tools(seq![t], keep, 0) =~= Seq::<JsonView>::empty());
}

/// An edit of the content blocks reaches every block of every message whose content is a list, and
/// nothing else: no message comes or goes, and every other member of the messages and of the body
/// stays.
pub proof fn law_edits_reach_every_block(
    body: JsonView,
    g: spec_fn(JsonView) -> JsonView,
    ms: Seq<JsonView>,
    i: int,
    key: Seq<char>,
)
    requires
        body.get("messages"@) == Some(JsonView::Array(ms)),
        0 <= i < ms.len(),
    ensures
        ({
            let after = provider::blocks_changed(body, g);
            let now = after.get_array("messages"@)->0;
            &&& after.get_array("messages"@) is Some
            &&& now.len() == ms.len()
            &&& key != "messages"@ ==> after.get(key) == body.get(key)
            &&& key != "content"@ ==> now[i].get(key) == ms[i].get(key)
            &&& match ms[i].get_array("content"@) {
                Some(bs) => now[i].get_array("content"@) is Some && now[i].get_array(
                    "content"@,
                )->0.len() == bs.len() && forall|j: int|
                    0 <= j < bs.len() ==> #[trigger] now[i].get_array("content"@)->0[j] == g(bs[j]),
                None => now[i] == ms[i],
            }
        }),
{
    let changed = ms.map_values(|m: JsonView| provider::message_changed(m, g));
    json::law_only_the_put_member_changes(
        body->Object_0,
        "messages"@,
        JsonView::Array(changed),
        key,
    );
    match ms[i].get_array("content"@) {
        Some(bs) => {
            json::law_only_the_put_member_changes(
                ms[i]->Object_0,
                "content"@,
                JsonView::Array(provider::all_changed(bs, g)),
                key,
            );
        },
        None => {},
    }
}

/// A body without a list of messages is not touched.
pub proof fn law_no_messages_no_edit(body: JsonView, g: spec_fn(JsonView) -> JsonView)
    requires
        body.get_array("messages"@) is None,
    ensures
        provider::blocks_changed(body, g) == body,
{
}

} // verus!
