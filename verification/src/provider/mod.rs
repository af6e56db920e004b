//! Provider adapters: the structural accessors that the pipeline uses on each provider's wire shape.
pub mod choice_laws;
pub mod completeness_laws;
pub mod laws;
pub mod pointer_laws;
pub mod pointers;
pub mod shape_laws;
pub mod truncate;
pub mod truncate_laws;
pub mod word_laws;

use crate::json;
use crate::json::{Json, JsonView};
use crate::pointer;
use crate::text;
use vstd::prelude::*;

verus! {

/// Normalized conversational role of the turn that a content pointer belongs to.
#[derive(Debug, Clone, Copy, PartialEq, Eq, Structural)]
pub enum Role {
    System,
    User,
    Assistant,
    Tool,
}

/// The neutral role of a raw provider role.
pub open spec fn role_of(s: Seq<char>) -> Role {
    if s == "system"@ || s == "developer"@ {
        Role::System
    } else if s == "assistant"@ || s == "model"@ {
        Role::Assistant
    } else if s == "tool"@ || s == "function"@ {
        Role::Tool
    } else {
        Role::User
    }
}

impl Role {
    /// Maps a raw provider role to the neutral role; an unknown one is a user's.
    pub fn from_str(s: &str) -> (r: Role)
        ensures
            r == role_of(s@),
    {
        if text::same(s, "system") || text::same(s, "developer") {
            Role::System
        } else if text::same(s, "assistant") || text::same(s, "model") {
            Role::Assistant
        } else if text::same(s, "tool") || text::same(s, "function") {
            Role::Tool
        } else {
            Role::User
        }
    }
}

/// What follows `prefix` in `s`, where `s` begins with it.
pub open spec fn after_prefix(s: Seq<char>, prefix: Seq<char>) -> Option<Seq<char>> {
    if text::starts_with(s, prefix) {
        Some(s.skip(prefix.len() as int))
    } else {
        None
    }
}

/// What follows the name of the list of turns in a content pointer.
pub open spec fn turn_part(pointer: Seq<char>) -> Option<Seq<char>> {
    if text::starts_with(pointer, "/messages/"@) {
        after_prefix(pointer, "/messages/"@)
    } else if text::starts_with(pointer, "/input/"@) {
        after_prefix(pointer, "/input/"@)
    } else {
        after_prefix(pointer, "/contents/"@)
    }
}

/// `s` up to its first slash, or all of it.
pub open spec fn first_token(s: Seq<char>) -> Seq<char>
    decreases s.len(),
{
    if s.len() == 0 || s[0] == '/' {
        Seq::empty()
    } else {
        seq![s[0]] + first_token(s.drop_first())
    }
}

/// The number that a token writes: decimal digits with at most one `+` before them.
pub open spec fn token_number(s: Seq<char>, limit: nat) -> Option<nat> {
    if s.len() > 0 && s[0] == '+' {
        text::digits_up_to(s.drop_first(), limit)
    } else {
        text::digits_up_to(s, limit)
    }
}

/// The turn that a content pointer addresses: the `i` of `messages[i]`, `input[i]` or `contents[i]`.
pub open spec fn turn_of(pointer: Seq<char>) -> Option<usize> {
    match turn_part(pointer) {
        Some(rest) => match token_number(first_token(rest), usize::MAX as nat) {
            Some(n) => Some(n as usize),
            None => None,
        },
        None => None,
    }
}

/// The turn that a content pointer addresses, or `None` for top-level text.
pub fn turn_index(pointer: &str) -> (r: Option<usize>)
    ensures
        r == turn_of(pointer@),
{
    let v = text::chars_of(pointer);
    let start: usize = if text::has_prefix(pointer, "/messages/") {
        10
    } else if text::has_prefix(pointer, "/input/") {
        7
    } else if text::has_prefix(pointer, "/contents/") {
        10
    } else {
        return None;
    };
    proof {
        reveal_strlit("/messages/");
        reveal_strlit("/input/");
        reveal_strlit("/contents/");
    }
    let ghost rest = v@.skip(start as int);
    assert(turn_part(pointer@) == Some(rest));
    let mut end: usize = start;
    assert(rest.skip(0) =~= rest);
    assert(rest.take(0) =~= Seq::<char>::empty());
    assert(Seq::<char>::empty() + first_token(rest) =~= first_token(rest));
    while end < v.len() && v[end] != '/'
        invariant
            start <= end <= v@.len(),
            rest == v@.skip(start as int),
            first_token(rest) == rest.take(end - start) + first_token(rest.skip(end - start)),
        decreases v@.len() - end,
    {
        let ghost here = rest.skip(end - start);
        assert(here[0] == v@[end as int]);
        assert(here.drop_first() =~= rest.skip(end + 1 - start));
        assert(rest.take(end - start) + (seq![here[0]] + first_token(here.drop_first()))
            =~= rest.take(end + 1 - start) + first_token(here.drop_first()));
        end = end + 1;
    }
    let ghost token = first_token(rest);
    assert(token =~= v@.subrange(start as int, end as int)) by {
        if end < v@.len() {
            assert(rest.skip(end - start)[0] == '/');
        }
    }
    let from: usize = if end > start && v[start] == '+' {
        assert(token.drop_first() =~= v@.subrange(start + 1, end as int));
        start + 1
    } else {
        start
    };
    match text::read_digits(v.as_slice(), from, end, usize::MAX as u64) {
        Some(n) => Some(n as usize),
        None => None,
    }
}

// ---------------------------------------------------------------------------------------------
// Requests
// ---------------------------------------------------------------------------------------------

/// Which provider's wire shape a request has.
#[derive(Debug, Clone, Copy, PartialEq, Eq, Structural)]
pub enum ProviderKind {
    OpenAi,
    Anthropic,
    Google,
}

/// A parsed request body.
#[derive(Debug, PartialEq)]
pub struct Request {
    pub raw: Json,
}

impl View for Request {
    type V = JsonView;

    open spec fn view(&self) -> JsonView {
        self.raw@
    }
}

impl Request {
    pub fn new(raw: Json) -> (r: Request)
        ensures
            r@ == raw@,
    {
        Request { raw }
    }

    pub fn raw(&self) -> (r: &Json)
        ensures
            r@ == self@,
    {
        &self.raw
    }
}

/// The role of turn `i` where the turns stand under `messages`.
pub open spec fn message_role(body: JsonView, i: usize) -> Option<Role> {
    match pointer::pointee(body, "/messages/"@ + text::decimal(i as nat) + "/role"@) {
        Some(JsonView::Str(s)) => Some(role_of(s)),
        _ => None,
    }
}

/// The role of the turn that a pointer addresses where the turns stand under `messages`.
pub open spec fn messages_role_at(body: JsonView, p: Seq<char>) -> Option<Role> {
    match turn_of(p) {
        Some(i) => message_role(body, i),
        None => None,
    }
}

/// The role of the turn that a pointer addresses where the turns stand under `messages`; `None` for
/// top-level text.
pub fn role_in_messages(req: &Request, p: &str) -> (r: Option<Role>)
    ensures
        r == messages_role_at(req@, p@),
{
    let i = match turn_index(p) {
        Some(i) => i,
        None => {
            return None;
        },
    };
    let mut at = "/messages/".to_owned();
    at.append(text::decimal_text(i as u64).as_str());
    at.append("/role");
    match pointer::find(req.raw(), at.as_str()) {
        Some(v) => match v.as_str() {
            Some(s) => Some(Role::from_str(s)),
            None => None,
        },
        None => None,
    }
}

/// Provider-specific structural accessors. Each adapter knows where the text of a request stands and
/// what its output controls are called.
pub trait Provider {
    fn kind(&self) -> ProviderKind;

    /// Pointers to every text segment of the request.
    fn content_text_pointers(&self, req: &Request) -> Vec<String>;

    /// The role of the turn that a content pointer belongs to, or `None` for top-level system text.
    /// Unless an adapter says otherwise, the turns stand under `messages`.
    fn role_at(&self, req: &Request, p: &str) -> (r: Option<Role>)
        default_ensures
            r == messages_role_at(req@, p@),
    {
        role_in_messages(req, p)
    }

    /// Sets the maximum of output tokens.
    fn set_max_tokens(&self, req: &mut Request, max_tokens: u64);

    /// The maximum of output tokens, if it is set.
    fn max_tokens(&self, req: &Request) -> Option<u64>;

    /// Appends a stop sequence.
    fn add_stop_sequence(&self, req: &mut Request, stop: &str);

    /// Prepends a system instruction.
    fn add_system_instruction(&self, req: &mut Request, instruction: &str);

    /// Binds the output to a JSON schema.
    fn bind_structured_output(&self, req: &mut Request, name: &str, schema: Json);

    /// Marks the invariant prefix with at most `max` cache breakpoints.
    fn set_cache_breakpoints(&self, req: &mut Request, max: usize);

    /// Pins the prefix cache to a stable key, unless one is set.
    fn set_prompt_cache_key(&self, req: &mut Request, key: &str);

    /// Name and description of each tool, in order.
    fn tool_descriptors(&self, req: &Request) -> Vec<(String, String)>;

    /// Retains the tools whose flag is true.
    fn retain_tools(&self, req: &mut Request, keep: &[bool]);

    /// Truncates each tool description to at most `max_chars` characters.
    fn truncate_tool_descriptions(&self, req: &mut Request, max_chars: usize);

    /// The text of the model's answer in a response body.
    fn answer_text(&self, response: &Json) -> Option<String>;

    /// Sets the detail tier of images.
    fn set_image_detail(&self, req: &mut Request, tier: &str);

    /// Scales embedded images down to the provider's effective resolution.
    fn downscale_images(&self, req: &mut Request);
}

// ---------------------------------------------------------------------------------------------
// Detection
// ---------------------------------------------------------------------------------------------

/// Whether some message has the role `system`.
pub open spec fn has_system_message(ms: Seq<JsonView>) -> bool {
    exists|i: int| 0 <= i < ms.len() && (#[trigger] ms[i]).get_str("role"@) == Some("system"@)
}

/// The provider that the top-level members of a body point to.
pub open spec fn detected(body: JsonView) -> Option<ProviderKind> {
    match body {
        JsonView::Object(e) => {
            if json::has_key(e, "contents"@) || json::has_key(e, "systemInstruction"@)
                || json::has_key(e, "system_instruction"@) || json::has_key(e, "generationConfig"@)
                || json::has_key(e, "generation_config"@) {
                Some(ProviderKind::Google)
            } else if json::has_key(e, "system"@) || json::has_key(e, "stop_sequences"@)
                || json::has_key(e, "anthropic_version"@) {
                Some(ProviderKind::Anthropic)
            } else if json::has_key(e, "input"@) && (json::has_key(e, "instructions"@)
                || json::has_key(e, "max_output_tokens"@)) {
                Some(ProviderKind::OpenAi)
            } else if json::has_key(e, "max_completion_tokens"@) || json::has_key(
                e,
                "response_format"@,
            ) {
                Some(ProviderKind::OpenAi)
            } else {
                match body.get_array("messages"@) {
                    Some(ms) => if has_system_message(ms) {
                        Some(ProviderKind::OpenAi)
                    } else {
                        None
                    },
                    None => None,
                }
            }
        },
        _ => None,
    }
}

fn system_message_in(messages: &Vec<Json>) -> (r: bool)
    ensures
        r == has_system_message(json::jsons(messages@)),
{
    let ghost trees = json::jsons(messages@);
    let mut i: usize = 0;
    while i < messages.len()
        invariant
            i <= messages@.len(),
            trees == json::jsons(messages@),
            forall|j: int|
                0 <= j < i ==> (#[trigger] trees[j]).get_str("role"@) != Some("system"@),
        decreases messages@.len() - i,
    {
        assert(trees[i as int] == messages@[i as int]@);
        match messages[i].get_str("role") {
            Some(role) => {
                if text::same(role, "system") {
                    return true;
                }
            },
            None => {},
        }
        i = i + 1;
    }
    false
}

/// The provider that the shape of a body points to; `None` where it is ambiguous.
pub fn detect(body: &Json) -> (r: Option<ProviderKind>)
    ensures
        r == detected(body@),
{
    let obj = match body.as_object() {
        Some(o) => o,
        None => {
            return None;
        },
    };
    if obj.contains_key("contents") || obj.contains_key("systemInstruction") || obj.contains_key(
        "system_instruction",
    ) || obj.contains_key("generationConfig") || obj.contains_key("generation_config") {
        return Some(ProviderKind::Google);
    }
    if obj.contains_key("system") || obj.contains_key("stop_sequences") || obj.contains_key(
        "anthropic_version",
    ) {
        return Some(ProviderKind::Anthropic);
    }
    if obj.contains_key("input") && (obj.contains_key("instructions") || obj.contains_key(
        "max_output_tokens",
    )) {
        return Some(ProviderKind::OpenAi);
    }
    if obj.contains_key("max_completion_tokens") || obj.contains_key("response_format") {
        return Some(ProviderKind::OpenAi);
    }
    match body.get_array("messages") {
        Some(messages) => {
            if system_message_in(messages) {
                Some(ProviderKind::OpenAi)
            } else {
                None
            }
        },
        None => None,
    }
}

// ---------------------------------------------------------------------------------------------
// Shared edits
// ---------------------------------------------------------------------------------------------

/// `root` with `value` under `key`, where it is an object.
pub open spec fn with_member(root: JsonView, key: Seq<char>, value: JsonView) -> JsonView {
    match root {
        JsonView::Object(e) => JsonView::Object(json::put(e, key, value)),
        _ => root,
    }
}

/// The stop sequences with one more: a list grows, a single one becomes a list of two, and anything
/// else gives way to a list of one.
pub open spec fn more_stops(before: Option<JsonView>, stop: Seq<char>) -> JsonView {
    match before {
        Some(JsonView::Array(a)) => JsonView::Array(a.push(JsonView::Str(stop))),
        Some(JsonView::Str(s)) => JsonView::Array(seq![JsonView::Str(s), JsonView::Str(stop)]),
        _ => JsonView::Array(seq![JsonView::Str(stop)]),
    }
}

/// Appends a stop sequence under `key`.
pub fn append_stop(root: &mut Json, key: &str, stop: &str)
    ensures
        final(root)@ == with_member(old(root)@, key@, more_stops(old(root)@.get(key@), stop@)),
{
    let ghost before = root@;
    let mut list: Vec<Json> = Vec::new();
    assert(json::jsons(list@) =~= Seq::<JsonView>::empty());
    match root.get(key) {
        Some(v) => match v.as_array() {
            Some(a) => {
                list = copied(a);
            },
            None => match v.as_str() {
                Some(s) => {
                    list.push(Json::text(s));
                    assert(json::jsons(list@) =~= seq![JsonView::Str(s@)]);
                },
                None => {},
            },
        },
        None => {},
    }
    let ghost kept = json::jsons(list@);
    list.push(Json::text(stop));
    assert(json::jsons(list@) =~= kept.push(JsonView::Str(stop@)));
    proof {
        json::lemma_array_view(list);
        assert(Json::Array(list)@->Array_0 =~= more_stops(before.get(key@), stop@)->Array_0);
    }
    set_member(root, key, Json::Array(list));
}

/// Puts `value` under `key`, where `root` is an object.
fn set_member(root: &mut Json, key: &str, value: Json)
    ensures
        final(root)@ == with_member(old(root)@, key@, value@),
{
    let mut taken = Json::Null;
    std::mem::swap(&mut taken, root);
    match taken {
        Json::Object(mut o) => {
            o.insert(key, value);
            *root = Json::Object(o);
        },
        other => {
            *root = other;
        },
    }
}

/// A copy of a list of values.
fn copied(a: &Vec<Json>) -> (r: Vec<Json>)
    ensures
        json::jsons(r@) == json::jsons(a@),
{
    let ghost all = json::jsons(a@);
    let mut out: Vec<Json> = Vec::new();
    let mut i: usize = 0;
    assert(json::jsons(out@) =~= all.take(0));
    while i < a.len()
        invariant
            i <= a@.len(),
            all == json::jsons(a@),
            json::jsons(out@) == all.take(i as int),
        decreases a@.len() - i,
    {
        let ghost before = json::jsons(out@);
        let item = a[i].clone();
        out.push(item);
        assert(json::jsons(out@) =~= before.push(item@));
        assert(all.take(i + 1) =~= all.take(i as int).push(all[i as int]));
        i = i + 1;
    }
    assert(all.take(all.len() as int) =~= all);
    out
}

/// The first `n` tools whose flag is not false. A tool without a flag stays.
pub open spec fn kept_tools(tools: Seq<JsonView>, keep: Seq<bool>, n: nat) -> Seq<JsonView>
    decreases n,
{
    if n == 0 || n > tools.len() {
        Seq::empty()
    } else {
        let before = kept_tools(tools, keep, (n - 1) as nat);
        if n - 1 < keep.len() && !keep[n - 1] {
            before
        } else {
            before.push(tools[n - 1])
        }
    }
}

/// Drops the tools whose flag is false.
pub fn retain_tools_array(req: &mut Request, keep: &[bool])
    ensures
        final(req)@ == match old(req)@.get_array("tools"@) {
            Some(ts) => with_member(
                old(req)@,
                "tools"@,
                JsonView::Array(kept_tools(ts, keep@, ts.len())),
            ),
            None => old(req)@,
        },
{
    let mut out: Vec<Json> = Vec::new();
    match req.raw.get_array("tools") {
        Some(tools) => {
            let ghost all = json::jsons(tools@);
            let mut i: usize = 0;
            assert(json::jsons(out@) =~= Seq::<JsonView>::empty());
            while i < tools.len()
                invariant
                    i <= tools@.len(),
                    all == json::jsons(tools@),
                    json::jsons(out@) == kept_tools(all, keep@, i as nat),
                decreases tools@.len() - i,
            {
                if !(i < keep.len() && !keep[i]) {
                    let ghost before = json::jsons(out@);
                    let item = tools[i].clone();
                    out.push(item);
                    assert(json::jsons(out@) =~= before.push(item@));
                    assert(all[i as int] == item@);
                }
                i = i + 1;
            }
        },
        None => {
            return;
        },
    }
    proof {
        json::lemma_array_view(out);
    }
    set_member(&mut req.raw, "tools", Json::Array(out));
}

/// The values with `g` applied to each.
pub open spec fn all_changed(vs: Seq<JsonView>, g: spec_fn(JsonView) -> JsonView) -> Seq<JsonView> {
    vs.map_values(g)
}

/// A message with `g` applied to each block of its content, where that is a list of blocks.
pub open spec fn message_changed(msg: JsonView, g: spec_fn(JsonView) -> JsonView) -> JsonView {
    match msg.get_array("content"@) {
        Some(bs) => with_member(msg, "content"@, JsonView::Array(all_changed(bs, g))),
        None => msg,
    }
}

/// A body with `g` applied to each content block of its messages.
pub open spec fn blocks_changed(body: JsonView, g: spec_fn(JsonView) -> JsonView) -> JsonView {
    match body.get_array("messages"@) {
        Some(ms) => with_member(
            body,
            "messages"@,
            JsonView::Array(ms.map_values(|m: JsonView| message_changed(m, g))),
        ),
        None => body,
    }
}

/// What `f` makes of a value is what `g` makes of its tree.
pub open spec fn described_by<F: Fn(&Json) -> Json>(
    f: F,
    g: spec_fn(JsonView) -> JsonView,
) -> bool {
    forall|b: Json, r: Json| #[trigger] call_ensures(f, (&b,), r) ==> r@ == g(b@)
}

fn changed_list<F: Fn(&Json) -> Json>(blocks: &Vec<Json>, f: &F) -> (r: Vec<Json>)
    requires
        forall|b: Json| call_requires(*f, (&b,)),
    ensures
        forall|g: spec_fn(JsonView) -> JsonView| #[trigger]
            described_by(*f, g) ==> json::jsons(r@) == all_changed(json::jsons(blocks@), g),
{
    let mut out: Vec<Json> = Vec::new();
    let mut i: usize = 0;
    while i < blocks.len()
        invariant
            i <= blocks@.len(),
            out@.len() == i,
            forall|b: Json| call_requires(*f, (&b,)),
            forall|j: int| 0 <= j < i ==> call_ensures(*f, (&blocks@[j],), #[trigger] out@[j]),
        decreases blocks@.len() - i,
    {
        let b = f(&blocks[i]);
        out.push(b);
        i = i + 1;
    }
    assert forall|g: spec_fn(JsonView) -> JsonView| #[trigger] described_by(*f, g) implies
        json::jsons(out@) == all_changed(json::jsons(blocks@), g) by {
        assert forall|j: int| 0 <= j < out@.len() implies (#[trigger] out@[j])@ == g(
            blocks@[j]@,
        ) by {
            assert(call_ensures(*f, (&blocks@[j],), out@[j]));
        }
        assert(json::jsons(out@) =~= all_changed(json::jsons(blocks@), g));
    }
    out
}

fn changed_message<F: Fn(&Json) -> Json>(msg: &Json, f: &F) -> (r: Json)
    requires
        forall|b: Json| call_requires(*f, (&b,)),
    ensures
        forall|g: spec_fn(JsonView) -> JsonView| #[trigger]
            described_by(*f, g) ==> r@ == message_changed(msg@, g),
{
    let mut out = msg.clone();
    match msg.get_array("content") {
        Some(blocks) => {
            let list = changed_list(blocks, f);
            proof {
                json::lemma_array_view(list);
            }
            set_member(&mut out, "content", Json::Array(list));
        },
        None => {},
    }
    out
}

/// Puts what `f` makes of it in the place of every content block of every message whose content is a
/// list of blocks.
pub fn for_each_content_block<F: Fn(&Json) -> Json>(req: &mut Request, f: F)
    requires
        forall|b: Json| call_requires(f, (&b,)),
    ensures
        forall|g: spec_fn(JsonView) -> JsonView| #[trigger]
            described_by(f, g) ==> final(req)@ == blocks_changed(old(req)@, g),
{
    let mut out: Vec<Json> = Vec::new();
    let ghost mut ms: Seq<JsonView> = Seq::empty();
    match req.raw.get_array("messages") {
        Some(messages) => {
            proof {
                ms = json::jsons(messages@);
            }
            let mut i: usize = 0;
            while i < messages.len()
                invariant
                    i <= messages@.len(),
                    ms == json::jsons(messages@),
                    out@.len() == i,
                    forall|b: Json| call_requires(f, (&b,)),
                    forall|g: spec_fn(JsonView) -> JsonView, j: int|
                        0 <= j < i && #[trigger] described_by(f, g) ==> (#[trigger] out@[j])@
                            == message_changed(ms[j], g),
                decreases messages@.len() - i,
            {
                let m = changed_message(&messages[i], &f);
                out.push(m);
                i = i + 1;
            }
        },
        None => {
            return;
        },
    }
    proof {
        json::lemma_array_view(out);
        assert forall|g: spec_fn(JsonView) -> JsonView| #[trigger] described_by(f, g) implies
            json::jsons(out@) == ms.map_values(|m: JsonView| message_changed(m, g)) by {
            assert(json::jsons(out@) =~= ms.map_values(|m: JsonView| message_changed(m, g)));
        }
    }
    set_member(&mut req.raw, "messages", Json::Array(out));
}

} // verus!
