//! JSON pointers: addresses of values inside a tree, as RFC 6901 writes them.
use crate::json;
use crate::json::{Json, JsonView};
use crate::text;
use crate::text_laws;
use vstd::prelude::*;

verus! {

// ---------------------------------------------------------------------------------------------
// The model
// ---------------------------------------------------------------------------------------------

/// One character of a key as a pointer writes it.
pub open spec fn escape_char(c: char) -> Seq<char> {
    if c == '~' {
        seq!['~', '0']
    } else if c == '/' {
        seq!['~', '1']
    } else {
        seq![c]
    }
}

/// A key as a pointer writes it: `~0` for a tilde and `~1` for a slash.
pub open spec fn escape(s: Seq<char>) -> Seq<char>
    decreases s.len(),
{
    if s.len() == 0 {
        Seq::empty()
    } else {
        escape(s.drop_last()) + escape_char(s.last())
    }
}

/// `s` with `c` in the place of each `~` that `mark` follows.
pub open spec fn replaced(s: Seq<char>, mark: char, c: char) -> Seq<char>
    decreases s.len(),
{
    if s.len() == 0 {
        Seq::empty()
    } else if s.len() >= 2 && s[0] == '~' && s[1] == mark {
        seq![c] + replaced(s.skip(2), mark, c)
    } else {
        seq![s[0]] + replaced(s.skip(1), mark, c)
    }
}

/// The key that a token of a pointer writes.
pub open spec fn unescape(s: Seq<char>) -> Seq<char> {
    replaced(replaced(s, '1', '/'), '0', '~')
}

/// The position in a list of `len` elements that a token writes: decimal digits, without a leading
/// zero, of a number below `len`.
pub open spec fn position(token: Seq<char>, len: nat) -> Option<int> {
    if token.len() > 0 && text::all_digits(token) && (token.len() == 1 || token[0] != '0')
        && text::decimal_value(token) < len {
        Some(text::decimal_value(token) as int)
    } else {
        None
    }
}

/// The value one step below `v`: under a key of an object, or at a position of an array.
pub open spec fn child(v: JsonView, token: Seq<char>) -> Option<JsonView> {
    match v {
        JsonView::Object(e) => json::lookup(e, token),
        JsonView::Array(a) => match position(token, a.len()) {
            Some(i) => Some(a[i]),
            None => None,
        },
        _ => None,
    }
}

/// The value that the tokens lead to.
pub open spec fn walk(root: JsonView, tokens: Seq<Seq<char>>) -> Option<JsonView>
    decreases tokens.len(),
{
    if tokens.len() == 0 {
        Some(root)
    } else {
        match walk(root, tokens.drop_last()) {
            Some(v) => child(v, unescape(tokens.last())),
            None => None,
        }
    }
}

/// The value that a pointer addresses.
pub open spec fn pointee(root: JsonView, pointer: Seq<char>) -> Option<JsonView> {
    if pointer.len() == 0 {
        Some(root)
    } else if pointer[0] != '/' {
        None
    } else {
        walk(root, text::split(pointer, '/').drop_first())
    }
}

/// A pointer one key further.
pub open spec fn under_key(pointer: Seq<char>, key: Seq<char>) -> Seq<char> {
    pointer.push('/') + escape(key)
}

/// A pointer one position further.
pub open spec fn under_index(pointer: Seq<char>, i: nat) -> Seq<char> {
    pointer.push('/') + text::decimal(i)
}

// ---------------------------------------------------------------------------------------------
// Pointers address what they say
// ---------------------------------------------------------------------------------------------

proof fn lemma_replaced_front(c: char, s: Seq<char>, mark: char, to: char)
    requires
        c != '~',
    ensures
        replaced(seq![c] + s, mark, to) == seq![c] + replaced(s, mark, to),
{
    let whole = seq![c] + s;
    assert(whole.skip(1) =~= s);
}

proof fn lemma_replaced_pair(c: char, s: Seq<char>, mark: char, to: char)
    requires
        c != '~',
    ensures
        replaced(seq!['~', c] + s, mark, to) == if c == mark {
            seq![to] + replaced(s, mark, to)
        } else {
            seq!['~', c] + replaced(s, mark, to)
        },
{
    let whole = seq!['~', c] + s;
    if c == mark {
        assert(whole.skip(2) =~= s);
    } else {
        assert(whole.skip(1) =~= seq![c] + s);
        lemma_replaced_front(c, s, mark, to);
        assert(seq!['~'] + (seq![c] + replaced(s, mark, to)) =~= seq!['~', c] + replaced(
            s,
            mark,
            to,
        ));
    }
}

proof fn lemma_escape_front(s: Seq<char>)
    requires
        s.len() > 0,
    ensures
        escape(s) == escape_char(s[0]) + escape(s.skip(1)),
    decreases s.len(),
{
    if s.len() == 1 {
        assert(s.drop_last() =~= Seq::<char>::empty());
        assert(s.skip(1) =~= Seq::<char>::empty());
        assert(escape(s) =~= escape_char(s[0]) + escape(s.skip(1)));
    } else {
        lemma_escape_front(s.drop_last());
        assert(s.drop_last().skip(1) =~= s.skip(1).drop_last());
        assert(escape(s) =~= escape_char(s[0]) + (escape(s.skip(1).drop_last()) + escape_char(
            s.last(),
        )));
    }
}

/// The characters of `s` with only the tildes written out.
spec fn half(s: Seq<char>) -> Seq<char>
    decreases s.len(),
{
    if s.len() == 0 {
        Seq::empty()
    } else if s[0] == '~' {
        seq!['~', '0'] + half(s.skip(1))
    } else {
        seq![s[0]] + half(s.skip(1))
    }
}

proof fn lemma_unescape_first(s: Seq<char>)
    ensures
        replaced(escape(s), '1', '/') == half(s),
    decreases s.len(),
{
    if s.len() > 0 {
        lemma_unescape_first(s.skip(1));
        lemma_escape_front(s);
        let rest = escape(s.skip(1));
        if s[0] == '~' {
            lemma_replaced_pair('0', rest, '1', '/');
        } else if s[0] == '/' {
            lemma_replaced_pair('1', rest, '1', '/');
        } else {
            lemma_replaced_front(s[0], rest, '1', '/');
        }
    }
}

proof fn lemma_unescape_second(s: Seq<char>)
    ensures
        replaced(half(s), '0', '~') == s,
    decreases s.len(),
{
    if s.len() > 0 {
        lemma_unescape_second(s.skip(1));
        let rest = half(s.skip(1));
        if s[0] == '~' {
            lemma_replaced_pair('0', rest, '0', '~');
        } else {
            lemma_replaced_front(s[0], rest, '0', '~');
        }
        assert(seq![s[0]] + s.skip(1) =~= s);
    } else {
        assert(replaced(half(s), '0', '~') =~= s);
    }
}

/// A key that is written into a pointer is read back as it was.
pub proof fn law_unescape_reverses_escape(s: Seq<char>)
    ensures
        unescape(escape(s)) == s,
{
    lemma_unescape_first(s);
    lemma_unescape_second(s);
}

/// A key as a pointer writes it holds no slash.
pub proof fn lemma_escape_has_no_slash(s: Seq<char>)
    ensures
        !escape(s).contains('/'),
    decreases s.len(),
{
    if s.len() > 0 {
        lemma_escape_has_no_slash(s.drop_last());
        let before = escape(s.drop_last());
        let last = escape_char(s.last());
        let whole = escape(s);
        assert(whole =~= before + last);
        if whole.contains('/') {
            let i = choose|i: int| 0 <= i < whole.len() && whole[i] == '/';
            if i < before.len() {
                assert(before[i] == '/');
            } else {
                assert(last[i - before.len()] == '/');
            }
        }
    }
}

proof fn lemma_digits_unescaped(s: Seq<char>)
    requires
        text::all_digits(s),
    ensures
        unescape(s) == s,
        !s.contains('/'),
{
    lemma_plain_replaced(s, '1', '/');
    lemma_plain_replaced(s, '0', '~');
}

proof fn lemma_plain_replaced(s: Seq<char>, mark: char, to: char)
    requires
        text::all_digits(s),
    ensures
        replaced(s, mark, to) == s,
    decreases s.len(),
{
    if s.len() > 0 {
        assert(text::is_digit(s[0]));
        let rest = s.skip(1);
        assert forall|i: int| 0 <= i < rest.len() implies text::is_digit(#[trigger] rest[i]) by {
            assert(text::is_digit(s[i + 1]));
        }
        lemma_plain_replaced(rest, mark, to);
        assert(seq![s[0]] + rest =~= s);
    } else {
        assert(replaced(s, mark, to) =~= s);
    }
}

proof fn lemma_decimal_first(n: nat)
    ensures
        n >= 10 ==> decimal_first(n) != '0',
        decimal_first(n) == text::decimal(n)[0],
        n < 10 ==> text::decimal(n).len() == 1,
        n > 0 ==> decimal_first(n) != '0',
    decreases n,
{
    if n >= 10 {
        lemma_decimal_first(n / 10);
        text::lemma_decimal_round_trip(n / 10);
    }
}

/// The first digit of a number.
spec fn decimal_first(n: nat) -> char
    decreases n,
{
    if n < 10 {
        (48 + n) as char
    } else {
        decimal_first(n / 10)
    }
}

/// The token of a position names that position.
pub proof fn lemma_position_of_decimal(i: nat, len: nat)
    requires
        i < len,
    ensures
        position(text::decimal(i), len) == Some(i as int),
{
    text::lemma_decimal_round_trip(i);
    lemma_decimal_first(i);
}

/// A pointer one token further addresses the child that the token names.
pub proof fn lemma_one_more_token(root: JsonView, pointer: Seq<char>, token: Seq<char>, v: JsonView)
    requires
        pointee(root, pointer) == Some(v),
        !token.contains('/'),
    ensures
        pointee(root, pointer.push('/') + token) == child(v, unescape(token)),
{
    let longer = pointer.push('/') + token;
    text::lemma_split_more(pointer, token, '/');
    text::lemma_split_len(pointer, '/');
    let tokens = text::split(pointer, '/');
    assert(text::split(longer, '/').drop_first() =~= tokens.drop_first().push(token));
    assert(tokens.drop_first().push(token).drop_last() =~= tokens.drop_first());
    if pointer.len() == 0 {
        assert(tokens.drop_first() =~= Seq::<Seq<char>>::empty());
        assert(longer[0] == '/');
    } else {
        assert(longer[0] == pointer[0]);
    }
    assert(walk(root, tokens.drop_first()) == Some(v));
}

/// A pointer one key further addresses the value under that key.
pub proof fn law_under_key_addresses_the_member(
    root: JsonView,
    pointer: Seq<char>,
    key: Seq<char>,
    e: json::Members,
)
    requires
        pointee(root, pointer) == Some(JsonView::Object(e)),
    ensures
        pointee(root, under_key(pointer, key)) == json::lookup(e, key),
{
    lemma_escape_has_no_slash(key);
    law_unescape_reverses_escape(key);
    lemma_one_more_token(root, pointer, escape(key), JsonView::Object(e));
}

/// A pointer one position further addresses the element at that position.
pub proof fn law_under_index_addresses_the_element(
    root: JsonView,
    pointer: Seq<char>,
    i: nat,
    a: Seq<JsonView>,
)
    requires
        pointee(root, pointer) == Some(JsonView::Array(a)),
        i < a.len(),
    ensures
        pointee(root, under_index(pointer, i)) == Some(a[i as int]),
{
    text::lemma_decimal_round_trip(i);
    lemma_digits_unescaped(text::decimal(i));
    lemma_position_of_decimal(i, a.len());
    lemma_one_more_token(root, pointer, text::decimal(i), JsonView::Array(a));
}

proof fn lemma_walk_add(root: JsonView, a: Seq<Seq<char>>, b: Seq<Seq<char>>)
    ensures
        walk(root, a + b) == match walk(root, a) {
            Some(v) => walk(v, b),
            None => None,
        },
    decreases b.len(),
{
    if b.len() == 0 {
        assert(a + b =~= a);
    } else {
        lemma_walk_add(root, a, b.drop_last());
        assert((a + b).drop_last() =~= a + b.drop_last());
    }
}

/// Pointers compose: a pointer followed by another addresses what the second addresses in the value
/// that the first addresses.
pub proof fn law_pointers_compose(root: JsonView, p: Seq<char>, q: Seq<char>, v: JsonView)
    requires
        pointee(root, p) == Some(v),
        q.len() == 0 || q[0] == '/',
    ensures
        pointee(root, p + q) == pointee(v, q),
{
    if q.len() == 0 {
        assert(p + q =~= p);
    } else {
        text::lemma_split_add(p, q, '/');
        text::lemma_split_len(p, '/');
        let a = text::split(p, '/');
        let b = text::split(q, '/').drop_first();
        assert((a + b).drop_first() =~= a.drop_first() + b);
        lemma_walk_add(root, a.drop_first(), b);
        if p.len() == 0 {
            assert(a.drop_first() =~= Seq::<Seq<char>>::empty());
            assert((p + q)[0] == '/');
        } else {
            assert((p + q)[0] == p[0]);
        }
    }
}

/// A key without tildes and slashes stands in a pointer as it is.
pub proof fn lemma_plain_key(key: Seq<char>)
    requires
        !key.contains('~'),
        !key.contains('/'),
    ensures
        escape(key) == key,
    decreases key.len(),
{
    if key.len() > 0 {
        let rest = key.drop_last();
        assert(key.contains(key[key.len() - 1]));
        assert(!rest.contains('~') && !rest.contains('/')) by {
            if rest.contains('~') {
                let i = choose|i: int| 0 <= i < rest.len() && rest[i] == '~';
                assert(key[i] == '~');
            }
            if rest.contains('/') {
                let i = choose|i: int| 0 <= i < rest.len() && rest[i] == '/';
                assert(key[i] == '/');
            }
        }
        lemma_plain_key(rest);
        assert(rest + seq![key.last()] =~= key);
    } else {
        assert(escape(key) =~= key);
    }
}

// ---------------------------------------------------------------------------------------------
// Executable pointers
// ---------------------------------------------------------------------------------------------

/// A key as a pointer writes it.
pub fn escaped(key: &str) -> (r: String)
    ensures
        r@ == escape(key@),
{
    let v = text::chars_of(key);
    let mut out = String::new();
    let mut i: usize = 0;
    assert(v@.take(0) =~= Seq::<char>::empty());
    while i < v.len()
        invariant
            i <= v@.len(),
            out@ == escape(v@.take(i as int)),
        decreases v@.len() - i,
    {
        let c = v[i];
        assert(v@.take(i + 1).drop_last() =~= v@.take(i as int));
        let ghost before = out@;
        if c == '~' {
            out.push('~');
            out.push('0');
        } else if c == '/' {
            out.push('~');
            out.push('1');
        } else {
            out.push(c);
        }
        assert(out@ =~= before + escape_char(c));
        i = i + 1;
    }
    assert(v@.take(v@.len() as int) =~= v@);
    out
}

/// A pointer one key further.
pub fn key_pointer(pointer: &str, key: &str) -> (r: String)
    ensures
        r@ == under_key(pointer@, key@),
{
    let mut out = pointer.to_owned();
    out.push('/');
    out.append(escaped(key).as_str());
    out
}

/// A pointer one position further.
pub fn index_pointer(pointer: &str, i: usize) -> (r: String)
    ensures
        r@ == under_index(pointer@, i as nat),
{
    let mut out = pointer.to_owned();
    out.push('/');
    out.append(text::decimal_text(i as u64).as_str());
    out
}

fn replace(v: &Vec<char>, mark: char, to: char) -> (r: Vec<char>)
    ensures
        r@ == replaced(v@, mark, to),
{
    let mut out: Vec<char> = Vec::new();
    let mut i: usize = 0;
    assert(v@.skip(0) =~= v@);
    assert(out@ + replaced(v@, mark, to) =~= replaced(v@, mark, to));
    while i < v.len()
        invariant
            i <= v@.len(),
            out@ + replaced(v@.skip(i as int), mark, to) == replaced(v@, mark, to),
        decreases v@.len() - i,
    {
        let ghost before = out@;
        let ghost rest = v@.skip(i as int);
        assert(rest.skip(1) =~= v@.skip(i + 1));
        if v.len() - i >= 2 && v[i] == '~' && v[i + 1] == mark {
            assert(rest.skip(2) =~= v@.skip(i + 2));
            out.push(to);
            assert(out@ + replaced(v@.skip(i + 2), mark, to) =~= before + (seq![to] + replaced(
                v@.skip(i + 2),
                mark,
                to,
            )));
            i = i + 2;
        } else {
            out.push(v[i]);
            assert(out@ + replaced(v@.skip(i + 1), mark, to) =~= before + (seq![rest[0]]
                + replaced(v@.skip(i + 1), mark, to)));
            i = i + 1;
        }
    }
    assert(out@ + replaced(v@.skip(i as int), mark, to) =~= out@);
    out
}

fn read_position(token: &Vec<char>, len: usize) -> (r: Option<usize>)
    ensures
        match r {
            Some(i) => position(token@, len as nat) == Some(i as int),
            None => position(token@, len as nat) is None,
        },
{
    if len == 0 {
        return None;
    }
    assert(token@.subrange(0, token@.len() as int) =~= token@);
    let n = match text::read_digits(token.as_slice(), 0, token.len(), (len - 1) as u64) {
        Some(n) => n,
        None => {
            return None;
        },
    };
    if token.len() > 1 && token[0] == '0' {
        return None;
    }
    Some(n as usize)
}

fn child_of<'a>(v: &'a Json, token: &Vec<char>) -> (r: Option<&'a Json>)
    ensures
        match r {
            Some(j) => child(v@, token@) == Some(j@),
            None => child(v@, token@) is None,
        },
{
    match v.as_array() {
        Some(a) => {
            match read_position(token, a.len()) {
                Some(i) => Some(&a[i]),
                None => None,
            }
        },
        None => {
            let key = text::text_of(token.as_slice(), 0, token.len());
            assert(key@ =~= token@);
            match v.as_object() {
                Some(o) => o.get(key.as_str()),
                None => None,
            }
        },
    }
}

/// The value that a pointer addresses.
pub fn find<'a>(root: &'a Json, pointer: &str) -> (r: Option<&'a Json>)
    ensures
        match r {
            Some(j) => pointee(root@, pointer@) == Some(j@),
            None => pointee(root@, pointer@) is None,
        },
{
    let v = text::chars_of(pointer);
    if v.len() == 0 {
        return Some(root);
    }
    if v[0] != '/' {
        return None;
    }
    let tokens = text::split_on(pointer, '/');
    let ghost all = text::texts(tokens@);
    proof {
        text::lemma_split_len(pointer@, '/');
    }
    let ghost steps = all.drop_first();
    let mut at: &Json = root;
    let mut i: usize = 1;
    assert(steps.take(0) =~= Seq::<Seq<char>>::empty());
    while i < tokens.len()
        invariant
            1 <= i <= tokens@.len(),
            all == text::texts(tokens@),
            all == text::split(pointer@, '/'),
            pointer@.len() > 0,
            pointer@[0] == '/',
            steps == all.drop_first(),
            walk(root@, steps.take(i - 1)) == Some(at@),
        decreases tokens@.len() - i,
    {
        assert(steps.take(i as int).drop_last() =~= steps.take(i - 1));
        assert(steps.take(i as int).last() == tokens@[i as int]@);
        let raw = text::chars_of(tokens[i].as_str());
        let token = replace(&replace(&raw, '1', '/'), '0', '~');
        match child_of(at, &token) {
            Some(j) => {
                at = j;
            },
            None => {
                proof {
                    lemma_walk_stops(root@, steps, i as int);
                }
                return None;
            },
        }
        i = i + 1;
    }
    assert(steps.take(steps.len() as int) =~= steps);
    Some(at)
}

/// Where some of the tokens lead nowhere, all of them lead nowhere.
proof fn lemma_walk_stops(root: JsonView, tokens: Seq<Seq<char>>, n: int)
    requires
        0 <= n <= tokens.len(),
        walk(root, tokens.take(n)) is None,
    ensures
        walk(root, tokens) is None,
    decreases tokens.len(),
{
    if n == tokens.len() {
        assert(tokens.take(n) =~= tokens);
    } else {
        assert(tokens.drop_last().take(n) =~= tokens.take(n));
        lemma_walk_stops(root, tokens.drop_last(), n);
    }
}

/// The empty pointer addresses the whole, and one that does not begin with a slash addresses nothing.
pub proof fn law_pointers_begin_with_a_slash(root: JsonView, p: Seq<char>)
    ensures
        pointee(root, Seq::<char>::empty()) == Some(root),
        p.len() > 0 && p[0] != '/' ==> pointee(root, p) is None,
{
}

/// Where a pointer addresses nothing, one that goes further addresses nothing.
pub proof fn law_nothing_leads_nowhere(root: JsonView, pointer: Seq<char>, token: Seq<char>)
    requires
        pointee(root, pointer) is None,
        !token.contains('/'),
    ensures
        pointee(root, pointer.push('/') + token) is None,
{
    let longer = pointer.push('/') + token;
    text::lemma_split_more(pointer, token, '/');
    text::lemma_split_len(pointer, '/');
    let tokens = text::split(pointer, '/');
    assert(text::split(longer, '/').drop_first() =~= tokens.drop_first().push(token));
    assert(tokens.drop_first().push(token).drop_last() =~= tokens.drop_first());
    assert(longer[0] == pointer[0]);
}

/// Nothing stands below what is neither an object nor a list, and nothing at a position that a list does
/// not have.
pub proof fn law_nothing_stands_below_a_leaf(
    root: JsonView,
    pointer: Seq<char>,
    v: JsonView,
    key: Seq<char>,
    i: nat,
)
    requires
        pointee(root, pointer) == Some(v),
    ensures
        !(v is Object) && !(v is Array) ==> pointee(root, under_key(pointer, key)) is None,
        v is Array && i >= v->Array_0.len() ==> pointee(root, under_index(pointer, i)) is None,
{
    lemma_escape_has_no_slash(key);
    lemma_one_more_token(root, pointer, escape(key), v);
    text::lemma_decimal_round_trip(i);
    lemma_digits_unescaped(text::decimal(i));
    lemma_one_more_token(root, pointer, text::decimal(i), v);
}

/// A position is read from the digits of its number and from nothing else: no sign, no leading zero.
pub proof fn law_positions_are_written_one_way(token: Seq<char>, len: nat, i: nat)
    ensures
        position(token, len) == Some(i as int) <==> token == text::decimal(i) && i < len,
{
    text::lemma_decimal_round_trip(i);
    text_laws::law_numbers_are_written_shortest(i);
    if position(token, len) is Some {
        text_laws::law_digits_are_written_one_way(token);
    }
    if i < 10 {
        assert(text::decimal(i).len() == 1);
    }
}

} // verus!
