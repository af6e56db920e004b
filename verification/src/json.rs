//! JSON values, as the rest of the library reads and builds them.
//!
//! [`Json`] is a plain tree; `serde_json` parses bytes into it and writes it out as text. An object
//! keeps its members in the order in which they were put in, and no key occurs twice.
use vstd::prelude::*;

verus! {

// ---------------------------------------------------------------------------------------------
// The outside types and what is trusted of them
// ---------------------------------------------------------------------------------------------

/// `serde_json::Number`: a JSON number, carried through as it is.
#[verifier::external_type_specification]
#[verifier::external_body]
pub struct ExNumber(serde_json::Number);

/// `serde_json::Value`: a parsed JSON tree.
#[verifier::external_type_specification]
#[verifier::external_body]
pub struct ExValue(serde_json::Value);

/// `serde_json::Error`: why a text is not JSON.
#[verifier::external_type_specification]
#[verifier::external_body]
pub struct ExError(serde_json::Error);

/// The integer that a `serde_json::Number` stands for, where it is one that fits an `i64`.
pub uninterp spec fn number_i64(n: serde_json::Number) -> Option<i64>;

/// The tree that a `serde_json::Value` holds.
pub uninterp spec fn value_holds(v: serde_json::Value) -> JsonView;

/// The tree that `serde_json` reads from a text, where the text is JSON.
pub uninterp spec fn parsed_json(bytes: Seq<u8>) -> Option<JsonView>;

/// The text that `serde_json` writes for a tree, where it writes one.
pub uninterp spec fn json_text(v: JsonView) -> Option<Seq<char>>;

/// `serde_json::Number::clone`: the copy is the same number.
pub assume_specification[ <serde_json::Number as Clone>::clone ](n: &serde_json::Number) -> (r:
    serde_json::Number)
    ensures
        r == *n,
;

/// `serde_json::Number::as_i64`: the number as an integer, if it is one that fits an `i64`.
#[verifier::external_body]
fn number_as_i64(n: &serde_json::Number) -> (r: Option<i64>)
    ensures
        r == number_i64(*n),
{
    n.as_i64()
}

/// `serde_json::Number::from` on an `i64`: the number stands for that integer.
#[verifier::external_body]
fn number_from_i64(i: i64) -> (r: serde_json::Number)
    ensures
        number_i64(r) == Some(i),
{
    serde_json::Number::from(i)
}

/// `serde_json::from_slice`: succeeds exactly on the texts that are JSON, with the tree that the
/// text writes.
#[verifier::external_body]
fn value_from_slice(bytes: &[u8]) -> (r: Result<serde_json::Value, serde_json::Error>)
    ensures
        r is Ok <==> parsed_json(bytes@) is Some,
        r matches Ok(v) ==> parsed_json(bytes@) == Some(value_holds(v)),
{
    serde_json::from_slice(bytes)
}

/// `serde_json::to_string`: every value has a text, the text is a function of the tree that the value
/// holds, and `serde_json::from_slice` reads a plain tree back from it. A tree with a number that is
/// no `i64` may come back with a number next to it, and one that nests deeper does not come back.
#[verifier::external_body]
fn value_to_string(v: &serde_json::Value) -> (r: Result<String, serde_json::Error>)
    ensures
        r is Ok,
        r matches Ok(s) ==> json_text(value_holds(*v)) == Some(s@),
        plain(value_holds(*v), MAX_DEPTH as nat) ==> (r matches Ok(s) ==> parsed_json(
            vstd::utf8::encode_utf8(s@),
        ) == Some(value_holds(*v))),
{
    serde_json::to_string(v)
}

/// The variants of `serde_json::Value`, with the members of an object listed in their order.
pub enum Parts {
    Null,
    Bool(bool),
    Number(serde_json::Number),
    Str(String),
    Array(Vec<serde_json::Value>),
    Object(Vec<(String, serde_json::Value)>),
}

/// Takes a `serde_json::Value` apart by its variant; the members of a `serde_json::Map` come in the
/// map's order, and no key comes twice.
#[verifier::external_body]
fn value_parts(v: serde_json::Value) -> (r: Parts)
    ensures
        parts_view(r) == value_holds(v),
        r matches Parts::Object(e) ==> distinct_keys(members_view(e@)),
{
    match v {
        serde_json::Value::Null => Parts::Null,
        serde_json::Value::Bool(b) => Parts::Bool(b),
        serde_json::Value::Number(n) => Parts::Number(n),
        serde_json::Value::String(s) => Parts::Str(s),
        serde_json::Value::Array(a) => Parts::Array(a),
        serde_json::Value::Object(m) => Parts::Object(m.into_iter().collect()),
    }
}

/// Builds a `serde_json::Value` from its variant; a `serde_json::Map` keeps the order in which
/// members with different keys are put in.
#[verifier::external_body]
fn value_from_parts(p: Parts) -> (r: serde_json::Value)
    requires
        p matches Parts::Object(e) ==> distinct_keys(members_view(e@)),
    ensures
        value_holds(r) == parts_view(p),
{
    match p {
        Parts::Null => serde_json::Value::Null,
        Parts::Bool(b) => serde_json::Value::Bool(b),
        Parts::Number(n) => serde_json::Value::Number(n),
        Parts::Str(s) => serde_json::Value::String(s),
        Parts::Array(a) => serde_json::Value::Array(a),
        Parts::Object(e) => serde_json::Value::Object(e.into_iter().collect()),
    }
}

// ---------------------------------------------------------------------------------------------
// The mathematical model
// ---------------------------------------------------------------------------------------------

/// A JSON tree. `Int` is a number that is an integer and fits an `i64`; `Number` is any other.
pub enum JsonView {
    Null,
    Bool(bool),
    Int(i64),
    Number(serde_json::Number),
    Str(Seq<char>),
    Array(Seq<JsonView>),
    Object(Seq<(Seq<char>, JsonView)>),
}

/// The members of an object: keys and values, in order.
pub type Members = Seq<(Seq<char>, JsonView)>;

pub open spec fn number_view(n: serde_json::Number) -> JsonView {
    match number_i64(n) {
        Some(i) => JsonView::Int(i),
        None => JsonView::Number(n),
    }
}

pub open spec fn members_view(e: Seq<(String, serde_json::Value)>) -> Members {
    e.map_values(|m: (String, serde_json::Value)| (m.0@, value_holds(m.1)))
}

pub open spec fn parts_view(p: Parts) -> JsonView {
    match p {
        Parts::Null => JsonView::Null,
        Parts::Bool(b) => JsonView::Bool(b),
        Parts::Number(n) => number_view(n),
        Parts::Str(s) => JsonView::Str(s@),
        Parts::Array(a) => JsonView::Array(a@.map_values(|v: serde_json::Value| value_holds(v))),
        Parts::Object(e) => JsonView::Object(members_view(e@)),
    }
}

pub open spec fn distinct_keys(e: Members) -> bool {
    forall|i: int, j: int| 0 <= i < j < e.len() ==> (#[trigger] e[i]).0 != (#[trigger] e[j]).0
}

pub open spec fn has_key(e: Members, key: Seq<char>) -> bool {
    exists|i: int| 0 <= i < e.len() && (#[trigger] e[i]).0 == key
}

/// The value under `key`, if there is one.
pub open spec fn lookup(e: Members, key: Seq<char>) -> Option<JsonView>
    decreases e.len(),
{
    if e.len() == 0 {
        None
    } else if e.last().0 == key {
        Some(e.last().1)
    } else {
        lookup(e.drop_last(), key)
    }
}

/// The members with `value` under `key`: in the place of the old value where the key is there, at
/// the end where it is not.
pub open spec fn put(e: Members, key: Seq<char>, value: JsonView) -> Members {
    if has_key(e, key) {
        Seq::new(
            e.len(),
            |i: int|
                if e[i].0 == key {
                    (key, value)
                } else {
                    e[i]
                },
        )
    } else {
        e.push((key, value))
    }
}

/// How deep the arrays and objects of a tree may nest for its text to be read back.
pub const MAX_DEPTH: u64 = 127;

/// The arrays and objects of a tree nest at most `depth` deep, no object has a key twice, and every
/// number is an integer that fits an `i64`.
pub open spec fn plain(v: JsonView, depth: nat) -> bool
    decreases v,
{
    match v {
        JsonView::Number(_) => false,
        JsonView::Array(a) => depth > 0 && forall|i: int|
            0 <= i < a.len() ==> plain(#[trigger] a[i], (depth - 1) as nat),
        JsonView::Object(e) => depth > 0 && distinct_keys(e) && forall|i: int|
            0 <= i < e.len() ==> plain((#[trigger] e[i]).1, (depth - 1) as nat),
        _ => true,
    }
}

/// No object of the tree has a key twice.
pub open spec fn well_keyed(v: JsonView) -> bool
    decreases v,
{
    match v {
        JsonView::Array(a) => forall|i: int| 0 <= i < a.len() ==> well_keyed(#[trigger] a[i]),
        JsonView::Object(e) => distinct_keys(e) && forall|i: int|
            0 <= i < e.len() ==> well_keyed((#[trigger] e[i]).1),
        _ => true,
    }
}

/// The elements of a tree without double keys are such trees.
pub proof fn lemma_well_keyed_element(a: Seq<JsonView>, i: int)
    requires
        well_keyed(JsonView::Array(a)),
        0 <= i < a.len(),
    ensures
        well_keyed(a[i]),
{
    let whole = JsonView::Array(a);
    assert(whole->Array_0 == a);
    assert(forall|j: int| 0 <= j < a.len() ==> well_keyed(#[trigger] a[j]));
}

/// The members of a tree without double keys are such trees.
pub proof fn lemma_well_keyed_member(e: Members, key: Seq<char>)
    requires
        well_keyed(JsonView::Object(e)),
        lookup(e, key) is Some,
    ensures
        well_keyed(lookup(e, key)->0),
{
    let whole = JsonView::Object(e);
    assert(whole->Object_0 == e);
    lemma_lookup_has_key(e, key);
    let i = choose|i: int| 0 <= i < e.len() && (#[trigger] e[i]).0 == key;
    lemma_lookup_at(e, i);
    assert(well_keyed(e[i].1));
}

/// A member is found by its key, wherever it stands; a key that is not there has no value.
pub proof fn law_members_are_found_by_their_key(
    a: Members,
    key: Seq<char>,
    value: JsonView,
    b: Members,
)
    requires
        !has_key(b, key),
    ensures
        lookup(a.push((key, value)) + b, key) == Some(value),
        lookup(b, key) is None,
        JsonView::Object(b).get(key) is None,
    decreases b.len(),
{
    let whole = a.push((key, value)) + b;
    lemma_lookup_has_key(b, key);
    if b.len() == 0 {
        assert(whole =~= a.push((key, value)));
    } else {
        let most = b.drop_last();
        assert(!has_key(most, key)) by {
            if has_key(most, key) {
                let i = choose|i: int| 0 <= i < most.len() && (#[trigger] most[i]).0 == key;
                assert(b[i].0 == key);
            }
        }
        law_members_are_found_by_their_key(a, key, value, most);
        assert(whole.drop_last() =~= a.push((key, value)) + most);
        assert(whole.last() == b[b.len() - 1]);
    }
}

/// A value is read as what it is, and as nothing else.
pub proof fn law_values_are_what_they_are(v: JsonView, key: Seq<char>)
    ensures
        v.as_str() is Some <==> v is Str,
        v.as_array() is Some <==> v is Array,
        v.as_bool() is Some <==> v is Bool,
        v.as_i64() is Some <==> v is Int,
        v.as_object() is Some <==> v is Object,
        v is Str ==> v == JsonView::Str(v.as_str()->0),
        v is Array ==> v == JsonView::Array(v.as_array()->0),
        v is Bool ==> v == JsonView::Bool(v.as_bool()->0),
        v is Int ==> v == JsonView::Int(v.as_i64()->0),
        v is Object ==> v == JsonView::Object(v.as_object()->0),
        !(v is Object) ==> v.get(key) is None,
{
}

/// Putting a value under a key changes what is under that key, and nothing else.
pub proof fn law_only_the_put_member_changes(
    e: Members,
    key: Seq<char>,
    value: JsonView,
    other: Seq<char>,
)
    ensures
        lookup(put(e, key, value), key) == Some(value),
        other != key ==> lookup(put(e, key, value), other) == lookup(e, other),
        put(e, key, value).len() == e.len() + if has_key(e, key) {
            0int
        } else {
            1
        },
{
    let changed = put(e, key, value);
    if has_key(e, key) {
        lemma_put_in_place(e, changed, key, value, other);
        lemma_lookup_has_key(e, key);
    } else {
        assert(changed.drop_last() =~= e);
        assert(changed.last() == (key, value));
    }
}

/// Putting a value under a key moves no member: each keeps its place, and a new one comes last.
pub proof fn law_putting_moves_no_member(e: Members, key: Seq<char>, value: JsonView, i: int)
    ensures
        0 <= i < e.len() ==> put(e, key, value)[i].0 == e[i].0 && (e[i].0 != key ==> put(
            e,
            key,
            value,
        )[i] == e[i]),
        !has_key(e, key) ==> put(e, key, value).last() == (key, value),
{
    if has_key(e, key) && 0 <= i < e.len() {
        assert(put(e, key, value)[i].0 == e[i].0);
    }
}

proof fn lemma_put_in_place(
    e: Members,
    changed: Members,
    key: Seq<char>,
    value: JsonView,
    other: Seq<char>,
)
    requires
        changed.len() == e.len(),
        forall|i: int|
            0 <= i < e.len() ==> #[trigger] changed[i] == if e[i].0 == key {
                (key, value)
            } else {
                e[i]
            },
    ensures
        lookup(e, key) is Some ==> lookup(changed, key) == Some(value),
        other != key ==> lookup(changed, other) == lookup(e, other),
    decreases e.len(),
{
    if e.len() > 0 {
        assert(changed.last() == changed[e.len() - 1]);
        lemma_put_in_place(e.drop_last(), changed.drop_last(), key, value, other);
    }
}

/// The members other than the one under `key`.
pub open spec fn omit(e: Members, key: Seq<char>) -> Members
    decreases e.len(),
{
    if e.len() == 0 {
        e
    } else if e.last().0 == key {
        omit(e.drop_last(), key)
    } else {
        omit(e.drop_last(), key).push(e.last())
    }
}

/// Omitting a member leaves the others, in their order, and nothing else.
pub proof fn law_only_the_omitted_member_goes(e: Members, key: Seq<char>, other: Seq<char>)
    ensures
        lookup(omit(e, key), key) is None,
        other != key ==> lookup(omit(e, key), other) == lookup(e, other),
    decreases e.len(),
{
    if e.len() > 0 {
        law_only_the_omitted_member_goes(e.drop_last(), key, other);
        let rest = omit(e.drop_last(), key);
        if e.last().0 != key {
            assert(rest.push(e.last()).drop_last() =~= rest);
        }
    }
}

/// Whether a member is left is its own affair: of two lists the members of the first are left and then
/// those of the second; one goes exactly where it stands under the key.
pub proof fn law_members_are_left_one_by_one(
    a: Members,
    b: Members,
    key: Seq<char>,
    m: (Seq<char>, JsonView),
)
    ensures
        omit(a + b, key) == omit(a, key) + omit(b, key),
        m.0 == key ==> omit(seq![m], key) == Members::empty(),
        m.0 != key ==> omit(seq![m], key) == seq![m],
    decreases b.len(),
{
    assert(seq![m].drop_last() =~= Members::empty());
    assert(omit(Members::empty(), key) =~= Members::empty());
    assert(Members::empty().push(m) =~= seq![m]);
    if b.len() == 0 {
        assert(a + b =~= a);
        assert(omit(a, key) + omit(b, key) =~= omit(a, key));
    } else {
        law_members_are_left_one_by_one(a, b.drop_last(), key, m);
        assert((a + b).drop_last() =~= a + b.drop_last());
        let x = omit(a, key);
        let y = omit(b.drop_last(), key);
        assert((x + y).push(b.last()) =~= x + y.push(b.last()));
    }
}

/// Every member that is left stood in the object.
proof fn lemma_omit_members(e: Members, key: Seq<char>)
    ensures
        omit(e, key).len() <= e.len(),
        forall|j: int|
            0 <= j < omit(e, key).len() ==> exists|k: int|
                0 <= k < e.len() && (#[trigger] e[k]) == (#[trigger] omit(e, key)[j]),
        distinct_keys(e) ==> distinct_keys(omit(e, key)),
    decreases e.len(),
{
    if e.len() > 0 {
        let front = e.drop_last();
        lemma_omit_members(front, key);
        let rest = omit(front, key);
        assert forall|j: int| 0 <= j < rest.len() implies exists|k: int|
            0 <= k < e.len() - 1 && (#[trigger] e[k]) == (#[trigger] rest[j]) by {
            let k = choose|k: int| 0 <= k < front.len() && (#[trigger] front[k]) == rest[j];
            assert(e[k] == rest[j]);
        }
        if e.last().0 == key {
            assert(omit(e, key) == rest);
        } else {
            assert(e[e.len() - 1] == e.last());
            assert(omit(e, key) == rest.push(e.last()));
            if distinct_keys(e) {
                assert forall|i: int, j: int| 0 <= i < j < rest.len() + 1 implies (
                #[trigger] omit(e, key)[i]).0 != (#[trigger] omit(e, key)[j]).0 by {
                    assert(distinct_keys(front));
                    if j == rest.len() {
                        let k = choose|k: int|
                            0 <= k < e.len() - 1 && (#[trigger] e[k]) == rest[i];
                        assert(e[k].0 != e[e.len() - 1].0);
                    }
                }
            }
        }
    }
}

/// A plain tree without one of its members is plain.
pub proof fn lemma_omit_plain(e: Members, key: Seq<char>, depth: nat)
    requires
        plain(JsonView::Object(e), depth),
    ensures
        plain(JsonView::Object(omit(e, key)), depth),
{
    let whole = JsonView::Object(e);
    assert(whole->Object_0 == e);
    lemma_omit_members(e, key);
    let rest = omit(e, key);
    assert forall|j: int| 0 <= j < rest.len() implies plain(
        (#[trigger] rest[j]).1,
        (depth - 1) as nat,
    ) by {
        let k = choose|k: int| 0 <= k < e.len() && (#[trigger] e[k]) == rest[j];
        assert(plain(e[k].1, (depth - 1) as nat));
    }
    let part = JsonView::Object(rest);
    assert(part->Object_0 == rest);
}

impl JsonView {
    /// The members, where this is an object.
    pub open spec fn as_object(self) -> Option<Members> {
        match self {
            JsonView::Object(e) => Some(e),
            _ => None,
        }
    }

    /// The value under `key`, where this is an object that has it.
    pub open spec fn get(self, key: Seq<char>) -> Option<JsonView> {
        match self {
            JsonView::Object(e) => lookup(e, key),
            _ => None,
        }
    }

    pub open spec fn as_str(self) -> Option<Seq<char>> {
        match self {
            JsonView::Str(s) => Some(s),
            _ => None,
        }
    }

    pub open spec fn as_array(self) -> Option<Seq<JsonView>> {
        match self {
            JsonView::Array(a) => Some(a),
            _ => None,
        }
    }

    pub open spec fn as_bool(self) -> Option<bool> {
        match self {
            JsonView::Bool(b) => Some(b),
            _ => None,
        }
    }

    pub open spec fn as_i64(self) -> Option<i64> {
        match self {
            JsonView::Int(i) => Some(i),
            _ => None,
        }
    }

    /// The string under `key`, where there is one.
    pub open spec fn get_str(self, key: Seq<char>) -> Option<Seq<char>> {
        match self.get(key) {
            Some(v) => v.as_str(),
            None => None,
        }
    }

    /// The array under `key`, where there is one.
    pub open spec fn get_array(self, key: Seq<char>) -> Option<Seq<JsonView>> {
        match self.get(key) {
            Some(v) => v.as_array(),
            None => None,
        }
    }

    /// The boolean under `key`, where there is one.
    pub open spec fn get_bool(self, key: Seq<char>) -> Option<bool> {
        match self.get(key) {
            Some(v) => v.as_bool(),
            None => None,
        }
    }

    /// The integer under `key`, where there is one.
    pub open spec fn get_i64(self, key: Seq<char>) -> Option<i64> {
        match self.get(key) {
            Some(v) => v.as_i64(),
            None => None,
        }
    }

    /// The value under `inner` of the value under `outer`.
    pub open spec fn get2(self, outer: Seq<char>, inner: Seq<char>) -> Option<JsonView> {
        match self.get(outer) {
            Some(v) => v.get(inner),
            None => None,
        }
    }
}

// ---------------------------------------------------------------------------------------------
// The executable tree
// ---------------------------------------------------------------------------------------------

/// A JSON value.
#[derive(Debug, PartialEq)]
pub enum Json {
    Null,
    Bool(bool),
    Int(i64),
    Number(serde_json::Number),
    Str(String),
    Array(Vec<Json>),
    Object(JsonObject),
}

/// A JSON object: members in order, no key twice.
#[derive(Debug, PartialEq)]
pub struct JsonObject {
    entries: Vec<(String, Json)>,
}

impl View for Json {
    type V = JsonView;

    open spec fn view(&self) -> JsonView
        decreases self,
    {
        match self {
            Json::Null => JsonView::Null,
            Json::Bool(b) => JsonView::Bool(*b),
            Json::Int(i) => JsonView::Int(*i),
            Json::Number(n) => number_view(*n),
            Json::Str(s) => JsonView::Str(s@),
            Json::Array(a) => JsonView::Array(
                Seq::new(
                    a@.len(),
                    |i: int|
                        if 0 <= i < a@.len() {
                            a@[i].view()
                        } else {
                            JsonView::Null
                        },
                ),
            ),
            Json::Object(o) => JsonView::Object(o.view()),
        }
    }
}

impl View for JsonObject {
    type V = Members;

    closed spec fn view(&self) -> Members
        decreases self,
    {
        Seq::new(
            self.entries@.len(),
            |i: int|
                if 0 <= i < self.entries@.len() {
                    (self.entries@[i].0@, self.entries@[i].1.view())
                } else {
                    (Seq::empty(), JsonView::Null)
                },
        )
    }
}

/// The trees of a list of values.
pub open spec fn jsons(v: Seq<Json>) -> Seq<JsonView> {
    v.map_values(|j: Json| j@)
}

/// The tree of an array is the array of the trees.
pub proof fn lemma_array_view(a: Vec<Json>)
    ensures
        Json::Array(a)@ == JsonView::Array(jsons(a@)),
{
    reveal_with_fuel(<Json as View>::view, 2);
    assert(Json::Array(a)@->Array_0 =~= jsons(a@));
}

impl JsonObject {
    #[verifier::type_invariant]
    spec fn distinct(self) -> bool {
        forall|i: int, j: int|
            0 <= i < j < self.entries@.len() ==> (#[trigger] self.entries@[i]).0@ != (
            #[trigger] self.entries@[j]).0@
    }

    pub fn new() -> (r: JsonObject)
        ensures
            r@ == Members::empty(),
    {
        let r = JsonObject { entries: Vec::new() };
        assert(r@ =~= Members::empty());
        r
    }

    pub fn len(&self) -> (r: usize)
        ensures
            r == self@.len(),
    {
        self.entries.len()
    }

    /// The key at position `i`.
    pub fn key_at(&self, i: usize) -> (r: &str)
        requires
            i < self@.len(),
        ensures
            r@ == self@[i as int].0,
    {
        self.entries[i].0.as_str()
    }

    /// The value at position `i`.
    pub fn value_at(&self, i: usize) -> (r: &Json)
        requires
            i < self@.len(),
        ensures
            r@ == self@[i as int].1,
    {
        &self.entries[i].1
    }

    /// The value under `key`, if there is one.
    pub fn get(&self, key: &str) -> (r: Option<&Json>)
        ensures
            match r {
                Some(v) => lookup(self@, key@) == Some(v@),
                None => lookup(self@, key@) is None,
            },
    {
        let mut i: usize = self.entries.len();
        assert(self@.take(self@.len() as int) =~= self@);
        while i > 0
            invariant
                i <= self.entries@.len(),
                self@.len() == self.entries@.len(),
                lookup(self@, key@) == lookup(self@.take(i as int), key@),
            decreases i,
        {
            let e = &self.entries[i - 1];
            assert(self@.take(i as int).last() == self@[i - 1]);
            assert(self@.take(i as int).drop_last() =~= self@.take(i - 1));
            if e.0.as_str().eq(key) {
                return Some(&e.1);
            }
            i = i - 1;
        }
        None
    }

    /// The position of `key`, if it is there.
    fn position(&self, key: &str) -> (r: Option<usize>)
        ensures
            match r {
                Some(i) => i < self@.len() && self@[i as int].0 == key@,
                None => !has_key(self@, key@),
            },
    {
        let mut i: usize = 0;
        while i < self.entries.len()
            invariant
                i <= self.entries@.len(),
                forall|j: int| 0 <= j < i ==> (#[trigger] self@[j]).0 != key@,
            decreases self.entries@.len() - i,
        {
            if self.entries[i].0.as_str().eq(key) {
                return Some(i);
            }
            assert(self@[i as int].0 == self.entries@[i as int].0@);
            i = i + 1;
        }
        None
    }

    /// Whether `key` is there.
    pub fn contains_key(&self, key: &str) -> (r: bool)
        ensures
            r == has_key(self@, key@),
    {
        self.position(key).is_some()
    }

    /// Puts `value` under `key` and gives back what was there before.
    pub fn insert(&mut self, key: &str, value: Json) -> (r: Option<Json>)
        ensures
            final(self)@ == put(old(self)@, key@, value@),
            match r {
                Some(v) => lookup(old(self)@, key@) == Some(v@),
                None => !has_key(old(self)@, key@),
            },
    {
        proof {
            use_type_invariant(&*self);
        }
        let ghost before = self@;
        let at = self.position(key);
        let mut entries: Vec<(String, Json)> = Vec::new();
        std::mem::swap(&mut entries, &mut self.entries);
        let ghost old_entries = entries@;
        assert(before.len() == old_entries.len());
        assert(forall|i: int|
            0 <= i < before.len() ==> #[trigger] before[i] == (
                old_entries[i].0@,
                old_entries[i].1@,
            ));
        match at {
            Some(i) => {
                let mut slot: (String, Json) = (key.to_owned(), value);
                let ghost entry = slot;
                std::mem::swap(&mut slot, &mut entries[i]);
                assert(entries@ =~= old_entries.update(i as int, entry));
                self.entries = entries;
                proof {
                    lemma_lookup_at(before, i as int);
                    assert(has_key(before, key@));
                }
                assert(self@ =~= put(before, key@, value@));
                Some(slot.1)
            },
            None => {
                entries.push((key.to_owned(), value));
                assert(forall|i: int|
                    0 <= i < old_entries.len() ==> entries@[i] == #[trigger] old_entries[i]);
                assert forall|i: int, j: int| 0 <= i < j < entries@.len() implies (
                #[trigger] entries@[i]).0@ != (#[trigger] entries@[j]).0@ by {
                    assert(before[i].0 != key@);
                }
                self.entries = entries;
                assert(self@ =~= put(before, key@, value@));
                None
            },
        }
    }

    /// The object without the member under `key`.
    pub fn without(&self, key: &str) -> (r: JsonObject)
        ensures
            r@ == omit(self@, key@),
    {
        proof {
            use_type_invariant(self);
        }
        let mut out = JsonObject::new();
        let mut i: usize = 0;
        assert(self@.take(0) =~= Members::empty());
        while i < self.entries.len()
            invariant
                i <= self.entries@.len(),
                self@.len() == self.entries@.len(),
                distinct_keys(self@),
                out@ == omit(self@.take(i as int), key@),
                forall|j: int|
                    0 <= j < out@.len() ==> exists|k: int|
                        0 <= k < i && (#[trigger] self@[k]).0 == (#[trigger] out@[j]).0,
            decreases self.entries@.len() - i,
        {
            assert(self@.take(i + 1).drop_last() =~= self@.take(i as int));
            let e = &self.entries[i];
            assert(self@[i as int] == (e.0@, e.1@));
            if !e.0.as_str().eq(key) {
                let ghost before = out@;
                assert(!has_key(before, e.0@)) by {
                    if has_key(before, e.0@) {
                        let j = choose|j: int|
                            0 <= j < before.len() && (#[trigger] before[j]).0 == e.0@;
                        let k = choose|k: int|
                            0 <= k < i && (#[trigger] self@[k]).0 == before[j].0;
                        assert(self@[k].0 != self@[i as int].0);
                    }
                }
                out.insert(e.0.as_str(), e.1.clone());
            }
            i = i + 1;
        }
        assert(self@.take(self@.len() as int) =~= self@);
        out
    }

    /// The members as `serde_json` values.
    fn to_members(&self) -> (r: Vec<(String, serde_json::Value)>)
        ensures
            members_view(r@) == self@,
            distinct_keys(self@),
        decreases self,
    {
        proof {
            use_type_invariant(self);
        }
        let mut out: Vec<(String, serde_json::Value)> = Vec::new();
        let mut i: usize = 0;
        while i < self.entries.len()
            invariant
                i <= self.entries@.len(),
                members_view(out@) == self@.take(i as int),
            decreases self.entries@.len() - i,
        {
            let e = &self.entries[i];
            assert(decreases_to!(self => e.1));
            let v = e.1.to_value();
            let ghost before = members_view(out@);
            out.push((e.0.clone(), v));
            assert(members_view(out@) =~= before.push((e.0@, e.1@)));
            assert(self@.take(i + 1) =~= self@.take(i as int).push(self@[i as int]));
            i = i + 1;
        }
        assert(self@.take(self@.len() as int) =~= self@);
        assert forall|i: int, j: int| 0 <= i < j < self@.len() implies (#[trigger] self@[i]).0 != (
        #[trigger] self@[j]).0 by {
            assert(self.entries@[i].0@ != self.entries@[j].0@);
        }
        out
    }
}

/// In an object the value at a position is the value under the key of that position.
pub proof fn lemma_lookup_at(e: Members, i: int)
    requires
        distinct_keys(e),
        0 <= i < e.len(),
    ensures
        lookup(e, e[i].0) == Some(e[i].1),
    decreases e.len(),
{
    if i < e.len() - 1 {
        assert(e[i].0 != e[e.len() - 1].0);
        lemma_lookup_at(e.drop_last(), i);
        assert(e.drop_last()[i] == e[i]);
    }
}

/// A key is there exactly where a lookup finds a value.
pub proof fn lemma_lookup_has_key(e: Members, key: Seq<char>)
    ensures
        lookup(e, key) is Some <==> has_key(e, key),
    decreases e.len(),
{
    if e.len() > 0 {
        lemma_lookup_has_key(e.drop_last(), key);
        if e.last().0 == key {
            assert(e[e.len() - 1].0 == key);
        }
        if has_key(e.drop_last(), key) {
            let i = choose|i: int|
                0 <= i < e.drop_last().len() && (#[trigger] e.drop_last()[i]).0 == key;
            assert(e[i].0 == key);
        }
        if has_key(e, key) && e.last().0 != key {
            let i = choose|i: int| 0 <= i < e.len() && (#[trigger] e[i]).0 == key;
            assert(e.drop_last()[i].0 == key);
        }
    }
}

impl Clone for Json {
    fn clone(&self) -> (r: Self)
        ensures
            r@ == self@,
        decreases self,
    {
        match self {
            Json::Null => Json::Null,
            Json::Bool(b) => Json::Bool(*b),
            Json::Int(i) => Json::Int(*i),
            Json::Number(n) => Json::Number(n.clone()),
            Json::Str(s) => Json::Str(s.clone()),
            Json::Array(a) => {
                let mut out: Vec<Json> = Vec::new();
                let mut i: usize = 0;
                while i < a.len()
                    invariant
                        i <= a@.len(),
                        *self == Json::Array(*a),
                        out@.len() == i,
                        forall|j: int| 0 <= j < i ==> (#[trigger] out@[j])@ == a@[j]@,
                    decreases a@.len() - i,
                {
                    assert(decreases_to!(*self => self->Array_0));
                    assert(decreases_to!(*a => a@[i as int]));
                    out.push(a[i].clone());
                    i = i + 1;
                }
                proof {
                    lemma_array_view(*a);
                    lemma_array_view(out);
                    assert(jsons(out@) =~= jsons(a@));
                }
                Json::Array(out)
            },
            Json::Object(o) => Json::Object(o.clone()),
        }
    }
}

impl Clone for JsonObject {
    fn clone(&self) -> (r: Self)
        ensures
            r@ == self@,
        decreases self,
    {
        proof {
            use_type_invariant(self);
        }
        let mut out: Vec<(String, Json)> = Vec::new();
        let mut i: usize = 0;
        while i < self.entries.len()
            invariant
                i <= self.entries@.len(),
                out@.len() == i,
                forall|j: int|
                    0 <= j < i ==> (#[trigger] out@[j]).0@ == self.entries@[j].0@ && out@[j].1@
                        == self.entries@[j].1@,
            decreases self.entries@.len() - i,
        {
            let e = &self.entries[i];
            assert(decreases_to!(self => e.1));
            out.push((e.0.clone(), e.1.clone()));
            i = i + 1;
        }
        assert forall|i: int, j: int| 0 <= i < j < out@.len() implies (#[trigger] out@[i]).0@ != (
        #[trigger] out@[j]).0@ by {
            assert(self.entries@[i].0@ != self.entries@[j].0@);
        }
        let r = JsonObject { entries: out };
        assert(r@ =~= self@);
        r
    }
}

impl Json {
    /// This tree as a `serde_json` value.
    fn to_value(&self) -> (r: serde_json::Value)
        ensures
            value_holds(r) == self@,
        decreases self,
    {
        match self {
            Json::Null => value_from_parts(Parts::Null),
            Json::Bool(b) => value_from_parts(Parts::Bool(*b)),
            Json::Int(i) => value_from_parts(Parts::Number(number_from_i64(*i))),
            Json::Number(n) => value_from_parts(Parts::Number(n.clone())),
            Json::Str(s) => value_from_parts(Parts::Str(s.clone())),
            Json::Array(a) => {
                let mut out: Vec<serde_json::Value> = Vec::new();
                let mut i: usize = 0;
                while i < a.len()
                    invariant
                        i <= a@.len(),
                        *self == Json::Array(*a),
                        out@.len() == i,
                        forall|j: int| 0 <= j < i ==> value_holds(#[trigger] out@[j]) == a@[j]@,
                    decreases a@.len() - i,
                {
                    assert(decreases_to!(*self => self->Array_0));
                    assert(decreases_to!(*a => a@[i as int]));
                    out.push(a[i].to_value());
                    i = i + 1;
                }
                let p = Parts::Array(out);
                proof {
                    lemma_array_view(*a);
                    assert(parts_view(p)->Array_0 =~= jsons(a@));
                }
                value_from_parts(p)
            },
            Json::Object(o) => value_from_parts(Parts::Object(o.to_members())),
        }
    }

    /// The tree that a `serde_json` value holds.
    fn from_value(v: serde_json::Value) -> (r: Json)
        ensures
            r@ == value_holds(v),
            well_keyed(r@),
        decreases value_holds(v),
    {
        match value_parts(v) {
            Parts::Null => Json::Null,
            Parts::Bool(b) => Json::Bool(b),
            Parts::Number(n) => Json::Number(n),
            Parts::Str(s) => Json::Str(s),
            Parts::Array(a) => {
                let ghost items = a@;
                let mut out: Vec<Json> = Vec::new();
                for item in it: a
                    invariant
                        it.seq() == items,
                        value_holds(v) == JsonView::Array(
                            items.map_values(|v: serde_json::Value| value_holds(v)),
                        ),
                        out@.len() == it.index(),
                        forall|j: int|
                            0 <= j < it.index() ==> (#[trigger] out@[j])@ == value_holds(items[j])
                                && well_keyed(out@[j]@),
                {
                    proof {
                        let trees = value_holds(v)->Array_0;
                        assert(trees[it.index() as int] == value_holds(item));
                        assert(decreases_to!(value_holds(v) => trees[it.index() as int]));
                    }
                    out.push(Json::from_value(item));
                }
                let r = Json::Array(out);
                assert(r@->Array_0 =~= value_holds(v)->Array_0);
                assert forall|j: int| 0 <= j < r@->Array_0.len() implies well_keyed(
                    #[trigger] r@->Array_0[j],
                ) by {
                    assert(r@->Array_0[j] == out@[j]@);
                }
                r
            },
            Parts::Object(e) => {
                let ghost items = e@;
                let mut out: Vec<(String, Json)> = Vec::new();
                for item in it: e
                    invariant
                        it.seq() == items,
                        value_holds(v) == JsonView::Object(members_view(items)),
                        out@.len() == it.index(),
                        forall|j: int|
                            0 <= j < it.index() ==> (#[trigger] out@[j]).0@ == items[j].0@
                                && out@[j].1@ == value_holds(items[j].1) && well_keyed(
                                out@[j].1@,
                            ),
                {
                    proof {
                        let members = value_holds(v)->Object_0;
                        assert(members[it.index() as int].1 == value_holds(item.1));
                        assert(decreases_to!(value_holds(v) => members[it.index() as int].1));
                    }
                    out.push((item.0, Json::from_value(item.1)));
                }
                assert forall|i: int, j: int| 0 <= i < j < out@.len() implies (
                #[trigger] out@[i]).0@ != (#[trigger] out@[j]).0@ by {
                    let members = members_view(items);
                    assert(members[i].0 != members[j].0);
                }
                let o = JsonObject { entries: out };
                assert(o@ =~= members_view(items));
                let r = Json::Object(o);
                assert(r@->Object_0 == o@);
                assert forall|j: int| 0 <= j < o@.len() implies well_keyed(
                    (#[trigger] o@[j]).1,
                ) by {
                    assert(o@[j].1 == out@[j].1@);
                }
                r
            },
        }
    }

    /// Reads a JSON text.
    pub fn parse(bytes: &[u8]) -> (r: Option<Json>)
        ensures
            match r {
                Some(j) => parsed_json(bytes@) == Some(j@) && well_keyed(j@),
                None => parsed_json(bytes@) is None,
            },
    {
        match value_from_slice(bytes) {
            Ok(v) => Some(Json::from_value(v)),
            Err(_) => None,
        }
    }

    /// Writes this value as JSON text. A plain tree is read back from its text.
    pub fn to_text(&self) -> (r: Option<String>)
        ensures
            r is Some,
            json_text(self@) == Some(r->0@),
            plain(self@, MAX_DEPTH as nat) ==> parsed_json(vstd::utf8::encode_utf8(r->0@)) == Some(
                self@,
            ),
    {
        let v = self.to_value();
        match value_to_string(&v) {
            Ok(s) => Some(s),
            Err(_) => None,
        }
    }

    /// No object of a tree has a key twice: objects keep their keys apart, and this says it of all that
    /// are in the tree. It changes nothing.
    pub fn assure_distinct_keys(&self)
        ensures
            well_keyed(self@),
        decreases self@,
    {
        match self {
            Json::Array(a) => {
                proof {
                    lemma_array_view(*a);
                }
                let ghost trees = jsons(a@);
                let mut i: usize = 0;
                while i < a.len()
                    invariant
                        i <= a@.len(),
                        trees == jsons(a@),
                        self@ == JsonView::Array(trees),
                        forall|j: int| 0 <= j < i ==> well_keyed(#[trigger] trees[j]),
                    decreases a@.len() - i,
                {
                    assert(a@[i as int]@ == trees[i as int]);
                    assert(decreases_to!(self@ => self@->Array_0));
                    assert(decreases_to!(self@->Array_0 => trees[i as int]));
                    a[i].assure_distinct_keys();
                    i = i + 1;
                }
                assert(self@->Array_0 == trees);
            },
            Json::Object(o) => {
                let ghost e = o@;
                proof {
                    use_type_invariant(o);
                    assert forall|i: int, j: int| 0 <= i < j < e.len() implies (#[trigger] e[i]).0
                        != (#[trigger] e[j]).0 by {
                        assert(o.entries@[i].0@ != o.entries@[j].0@);
                    }
                }
                let mut i: usize = 0;
                while i < o.len()
                    invariant
                        i <= e.len(),
                        e == o@,
                        self@ == JsonView::Object(e),
                        forall|j: int| 0 <= j < i ==> well_keyed((#[trigger] e[j]).1),
                    decreases e.len() - i,
                {
                    assert(decreases_to!(self@ => self@->Object_0));
                    assert(decreases_to!(self@->Object_0 => e[i as int].1));
                    o.value_at(i).assure_distinct_keys();
                    i = i + 1;
                }
                assert(self@->Object_0 == e);
            },
            _ => {},
        }
    }

    /// A JSON string.
    pub fn text(s: &str) -> (r: Json)
        ensures
            r@ == JsonView::Str(s@),
    {
        Json::Str(s.to_owned())
    }

    /// The value under `key`, where this is an object that has it.
    pub fn get(&self, key: &str) -> (r: Option<&Json>)
        ensures
            match r {
                Some(v) => self@.get(key@) == Some(v@),
                None => self@.get(key@) is None,
            },
    {
        match self {
            Json::Object(o) => o.get(key),
            _ => None,
        }
    }

    pub fn as_str(&self) -> (r: Option<&str>)
        ensures
            match r {
                Some(s) => self@.as_str() == Some(s@),
                None => self@.as_str() is None,
            },
    {
        match self {
            Json::Str(s) => Some(s.as_str()),
            _ => None,
        }
    }

    pub fn as_object(&self) -> (r: Option<&JsonObject>)
        ensures
            match r {
                Some(o) => self@.as_object() == Some(o@),
                None => self@.as_object() is None,
            },
    {
        match self {
            Json::Object(o) => Some(o),
            _ => None,
        }
    }

    pub fn as_array(&self) -> (r: Option<&Vec<Json>>)
        ensures
            match r {
                Some(a) => self@.as_array() == Some(jsons(a@)),
                None => self@.as_array() is None,
            },
    {
        match self {
            Json::Array(a) => {
                proof {
                    lemma_array_view(*a);
                }
                Some(a)
            },
            _ => None,
        }
    }

    pub fn as_bool(&self) -> (r: Option<bool>)
        ensures
            r == self@.as_bool(),
    {
        match self {
            Json::Bool(b) => Some(*b),
            _ => None,
        }
    }

    pub fn as_i64(&self) -> (r: Option<i64>)
        ensures
            r == self@.as_i64(),
    {
        match self {
            Json::Int(i) => Some(*i),
            Json::Number(n) => number_as_i64(n),
            _ => None,
        }
    }

    /// The string under `key`, where there is one.
    pub fn get_str(&self, key: &str) -> (r: Option<&str>)
        ensures
            match r {
                Some(s) => self@.get_str(key@) == Some(s@),
                None => self@.get_str(key@) is None,
            },
    {
        match self.get(key) {
            Some(v) => v.as_str(),
            None => None,
        }
    }

    /// The array under `key`, where there is one.
    pub fn get_array(&self, key: &str) -> (r: Option<&Vec<Json>>)
        ensures
            match r {
                Some(a) => self@.get_array(key@) == Some(jsons(a@)),
                None => self@.get_array(key@) is None,
            },
    {
        match self.get(key) {
            Some(v) => v.as_array(),
            None => None,
        }
    }

    /// The boolean under `key`, where there is one.
    pub fn get_bool(&self, key: &str) -> (r: Option<bool>)
        ensures
            r == self@.get_bool(key@),
    {
        match self.get(key) {
            Some(v) => v.as_bool(),
            None => None,
        }
    }

    /// The integer under `key`, where there is one.
    pub fn get_i64(&self, key: &str) -> (r: Option<i64>)
        ensures
            r == self@.get_i64(key@),
    {
        match self.get(key) {
            Some(v) => v.as_i64(),
            None => None,
        }
    }

    /// The value under `inner` of the value under `outer`.
    pub fn get2(&self, outer: &str, inner: &str) -> (r: Option<&Json>)
        ensures
            match r {
                Some(v) => self@.get2(outer@, inner@) == Some(v@),
                None => self@.get2(outer@, inner@) is None,
            },
    {
        match self.get(outer) {
            Some(v) => v.get(inner),
            None => None,
        }
    }
}

} // verus!
