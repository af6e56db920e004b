//! Text as sequences of characters: the searching, trimming, splitting and number formatting that
//! the rest of the library is stated over.
use vstd::prelude::*;

verus! {

/// `String::push`: appends one character to the end of the string.
pub assume_specification[ String::push ](s: &mut String, c: char)
    ensures
        final(s)@ == old(s)@.push(c),
;

/// `str::eq`: two string slices are equal when they hold the same characters.
pub assume_specification[ <str as PartialEq>::eq ](a: &str, b: &str) -> (r: bool)
    ensures
        r == (a@ == b@),
;

// ---------------------------------------------------------------------------------------------
// Searching
// ---------------------------------------------------------------------------------------------

/// `pat` stands in `s` at position `i`.
pub open spec fn occurs_at(s: Seq<char>, pat: Seq<char>, i: int) -> bool {
    0 <= i && i + pat.len() <= s.len() && s.subrange(i, i + pat.len()) == pat
}

/// An optional text as characters.
pub open spec fn given(s: Option<&str>) -> Option<Seq<char>> {
    match s {
        Some(t) => Some(t@),
        None => None,
    }
}

/// `pat` stands somewhere in `s`.
pub open spec fn contains(s: Seq<char>, pat: Seq<char>) -> bool {
    exists|i: int| occurs_at(s, pat, i)
}

pub open spec fn starts_with(s: Seq<char>, pat: Seq<char>) -> bool {
    occurs_at(s, pat, 0)
}

pub open spec fn ends_with(s: Seq<char>, pat: Seq<char>) -> bool {
    occurs_at(s, pat, s.len() - pat.len())
}

/// The first position at or after `from` where `pat` stands in `s`.
pub open spec fn first_at(s: Seq<char>, pat: Seq<char>, from: int) -> Option<int>
    decreases s.len() - from + 1,
{
    if from < 0 || from + pat.len() > s.len() {
        None
    } else if occurs_at(s, pat, from) {
        Some(from)
    } else {
        first_at(s, pat, from + 1)
    }
}

/// The characters of a string slice.
pub fn chars_of(s: &str) -> (r: Vec<char>)
    ensures
        r@ == s@,
{
    let mut out: Vec<char> = Vec::new();
    for c in it: s.chars()
        invariant
            out@ == it.seq().take(it.index()),
            it.seq() == s@,
    {
        out.push(c);
        assert(it.seq().take(it.index() + 1) =~= it.seq().take(it.index()).push(c));
    }
    assert(s@.take(s@.len() as int) =~= s@);
    out
}

/// The characters of `v` from `from` up to `to` as a string.
pub fn text_of(v: &[char], from: usize, to: usize) -> (r: String)
    requires
        from <= to <= v@.len(),
    ensures
        r@ == v@.subrange(from as int, to as int),
{
    let mut out = String::new();
    let mut i: usize = from;
    while i < to
        invariant
            from <= i <= to <= v@.len(),
            out@ == v@.subrange(from as int, i as int),
        decreases to - i,
    {
        out.push(v[i]);
        assert(v@.subrange(from as int, i + 1) =~= v@.subrange(from as int, i as int).push(
            v@[i as int],
        ));
        i = i + 1;
    }
    out
}

/// Whether two string slices hold the same characters.
pub fn same(a: &str, b: &str) -> (r: bool)
    ensures
        r == (a@ == b@),
{
    a.eq(b)
}

/// Whether `pat` stands in `v` at position `i`.
pub fn matches_at(v: &[char], pat: &[char], i: usize) -> (r: bool)
    ensures
        r == occurs_at(v@, pat@, i as int),
{
    if i > v.len() || pat.len() > v.len() - i {
        return false;
    }
    let n: usize = v.len();
    let mut k: usize = 0;
    while k < pat.len()
        invariant
            n == v@.len(),
            i + pat@.len() <= n,
            k <= pat@.len(),
            forall|j: int| 0 <= j < k ==> v@[i + j] == pat@[j],
        decreases pat@.len() - k,
    {
        if v[i + k] != pat[k] {
            assert(v@.subrange(i as int, i + pat@.len())[k as int] == v@[i + k]);
            return false;
        }
        k = k + 1;
    }
    assert(v@.subrange(i as int, i + pat@.len()) =~= pat@);
    true
}

/// The first position at or after `from` where `pat` stands in `v`.
pub fn find_from(v: &[char], pat: &[char], from: usize) -> (r: Option<usize>)
    ensures
        match r {
            Some(i) => first_at(v@, pat@, from as int) == Some(i as int),
            None => first_at(v@, pat@, from as int) is None,
        },
{
    if from > v.len() || pat.len() > v.len() - from {
        return None;
    }
    let last: usize = v.len() - pat.len();
    let mut i: usize = from;
    while i <= last
        invariant
            last == v@.len() - pat@.len(),
            from <= i <= last + 1,
            v@.len() <= usize::MAX,
            first_at(v@, pat@, from as int) == first_at(v@, pat@, i as int),
        decreases last + 1 - i,
    {
        if matches_at(v, pat, i) {
            return Some(i);
        }
        if i == last {
            assert(first_at(v@, pat@, i + 1) is None);
            return None;
        }
        i = i + 1;
    }
    None
}

/// A search from position 0 finds `pat` exactly where `s` contains it, and finds the first place.
pub proof fn lemma_first_at(s: Seq<char>, pat: Seq<char>, from: int)
    requires
        0 <= from,
    ensures
        match first_at(s, pat, from) {
            Some(i) => from <= i && occurs_at(s, pat, i) && forall|j: int|
                from <= j < i ==> !occurs_at(s, pat, j),
            None => forall|j: int| from <= j ==> !occurs_at(s, pat, j),
        },
    decreases s.len() - from + 1,
{
    if from + pat.len() > s.len() || occurs_at(s, pat, from) {
    } else {
        lemma_first_at(s, pat, from + 1);
    }
}

/// Whether `pat` stands somewhere in `s`.
pub fn has_text(s: &str, pat: &str) -> (r: bool)
    ensures
        r == contains(s@, pat@),
{
    let v = chars_of(s);
    let p = chars_of(pat);
    proof {
        lemma_first_at(s@, pat@, 0);
    }
    match find_from(v.as_slice(), p.as_slice(), 0) {
        Some(i) => {
            assert(occurs_at(s@, pat@, i as int));
            true
        },
        None => false,
    }
}

/// Whether `s` begins with `pat`.
pub fn has_prefix(s: &str, pat: &str) -> (r: bool)
    ensures
        r == starts_with(s@, pat@),
{
    let v = chars_of(s);
    let p = chars_of(pat);
    matches_at(v.as_slice(), p.as_slice(), 0)
}

/// Whether `s` ends with `pat`.
pub fn has_suffix(s: &str, pat: &str) -> (r: bool)
    ensures
        r == ends_with(s@, pat@),
{
    let v = chars_of(s);
    let p = chars_of(pat);
    if p.len() > v.len() {
        return false;
    }
    matches_at(v.as_slice(), p.as_slice(), v.len() - p.len())
}

// ---------------------------------------------------------------------------------------------
// Decimal numbers
// ---------------------------------------------------------------------------------------------

pub open spec fn is_digit(c: char) -> bool {
    '0' <= c <= '9'
}

/// The decimal digits of `n`, without leading zeros.
pub open spec fn decimal(n: nat) -> Seq<char>
    decreases n,
{
    if n < 10 {
        seq![(48 + n) as char]
    } else {
        decimal(n / 10).push((48 + n % 10) as char)
    }
}

/// The number that a sequence of decimal digits writes.
pub open spec fn decimal_value(s: Seq<char>) -> nat
    decreases s.len(),
{
    if s.len() == 0 {
        0
    } else {
        (10 * decimal_value(s.drop_last()) + (s.last() as int - 48)) as nat
    }
}

pub open spec fn all_digits(s: Seq<char>) -> bool {
    forall|i: int| 0 <= i < s.len() ==> is_digit(#[trigger] s[i])
}

/// The number that `s` writes, when `s` is one or more decimal digits and the number is at most
/// `limit`.
pub open spec fn digits_up_to(s: Seq<char>, limit: nat) -> Option<nat> {
    if s.len() > 0 && all_digits(s) && decimal_value(s) <= limit {
        Some(decimal_value(s))
    } else {
        None
    }
}

/// Writing a number and reading it back gives the number.
pub proof fn lemma_decimal_round_trip(n: nat)
    ensures
        decimal(n).len() > 0,
        all_digits(decimal(n)),
        decimal_value(decimal(n)) == n,
    decreases n,
{
    if n < 10 {
        assert(decimal(n).drop_last() =~= Seq::<char>::empty());
        assert(decimal_value(Seq::<char>::empty()) == 0);
    } else {
        lemma_decimal_round_trip(n / 10);
        assert(decimal(n).drop_last() =~= decimal(n / 10));
    }
}

proof fn lemma_value_monotone(s: Seq<char>, i: int)
    requires
        all_digits(s),
        0 <= i <= s.len(),
    ensures
        decimal_value(s.take(i)) <= decimal_value(s),
    decreases s.len(),
{
    if i == s.len() {
        assert(s.take(i) =~= s);
    } else {
        assert(s.drop_last().take(i) =~= s.take(i));
        lemma_value_monotone(s.drop_last(), i);
    }
}

/// The decimal digits of `n`.
pub fn decimal_text(n: u64) -> (r: String)
    ensures
        r@ == decimal(n as nat),
    decreases n,
{
    let mut out = if n < 10 {
        String::new()
    } else {
        decimal_text(n / 10)
    };
    let d: u8 = (n % 10) as u8;
    out.push((48u8 + d) as char);
    assert(n < 10 ==> out@ =~= decimal(n as nat));
    out
}

/// Reads the digits of `v` from `from` up to `to` as a number of at most `limit`.
pub fn read_digits(v: &[char], from: usize, to: usize, limit: u64) -> (r: Option<u64>)
    requires
        from <= to <= v@.len(),
    ensures
        match r {
            Some(n) => digits_up_to(v@.subrange(from as int, to as int), limit as nat) == Some(
                n as nat,
            ),
            None => digits_up_to(v@.subrange(from as int, to as int), limit as nat) is None,
        },
{
    let ghost s = v@.subrange(from as int, to as int);
    if from == to {
        return None;
    }
    let mut n: u64 = 0;
    let mut i: usize = from;
    while i < to
        invariant
            from <= i <= to <= v@.len(),
            s == v@.subrange(from as int, to as int),
            all_digits(s.take(i - from)),
            n == decimal_value(s.take(i - from)),
            n <= limit,
        decreases to - i,
    {
        let c = v[i];
        assert(s[i - from] == c);
        if !(c >= '0' && c <= '9') {
            return None;
        }
        let d: u64 = (c as u32 - 48u32) as u64;
        let wide: u128 = (n as u128) * 10 + (d as u128);
        assert(s.take(i + 1 - from).drop_last() =~= s.take(i - from));
        assert(wide == decimal_value(s.take(i + 1 - from)));
        if wide > limit as u128 {
            proof {
                if all_digits(s) {
                    lemma_value_monotone(s, i + 1 - from);
                }
            }
            return None;
        }
        assert(all_digits(s.take(i + 1 - from)));
        n = wide as u64;
        i = i + 1;
    }
    assert(s.take(s.len() as int) =~= s);
    Some(n)
}

// ---------------------------------------------------------------------------------------------
// White space
// ---------------------------------------------------------------------------------------------

/// Unicode's `White_Space` property.
pub open spec fn is_white_space(c: char) -> bool {
    let n = c as int;
    ||| 9 <= n <= 13
    ||| n == 32
    ||| n == 0x85
    ||| n == 0xa0
    ||| n == 0x1680
    ||| 0x2000 <= n <= 0x200a
    ||| n == 0x2028
    ||| n == 0x2029
    ||| n == 0x202f
    ||| n == 0x205f
    ||| n == 0x3000
}

/// `s` without the white space at its end.
pub open spec fn trim_end(s: Seq<char>) -> Seq<char>
    decreases s.len(),
{
    if s.len() > 0 && is_white_space(s.last()) {
        trim_end(s.drop_last())
    } else {
        s
    }
}

/// `s` without the white space at its start.
pub open spec fn trim_start(s: Seq<char>) -> Seq<char>
    decreases s.len(),
{
    if s.len() > 0 && is_white_space(s[0]) {
        trim_start(s.drop_first())
    } else {
        s
    }
}

/// `s` without the white space at either end.
pub open spec fn trim(s: Seq<char>) -> Seq<char> {
    trim_end(trim_start(s))
}

/// Whether `c` is white space.
pub fn white_space(c: char) -> (r: bool)
    ensures
        r == is_white_space(c),
{
    let n: u32 = c as u32;
    (9 <= n && n <= 13) || n == 32 || n == 0x85 || n == 0xa0 || n == 0x1680 || (0x2000 <= n && n
        <= 0x200a) || n == 0x2028 || n == 0x2029 || n == 0x202f || n == 0x205f || n == 0x3000
}

/// The end of `v[from..to]` once its trailing white space is left out.
pub fn trimmed_end(v: &[char], from: usize, to: usize) -> (r: usize)
    requires
        from <= to <= v@.len(),
    ensures
        from <= r <= to,
        v@.subrange(from as int, r as int) == trim_end(v@.subrange(from as int, to as int)),
{
    let mut end: usize = to;
    while end > from && white_space(v[end - 1])
        invariant
            from <= end <= to <= v@.len(),
            trim_end(v@.subrange(from as int, to as int)) == trim_end(
                v@.subrange(from as int, end as int),
            ),
        decreases end - from,
    {
        assert(v@.subrange(from as int, end as int).drop_last() =~= v@.subrange(
            from as int,
            end - 1,
        ));
        end = end - 1;
    }
    end
}

/// The start of `v[from..to]` once its leading white space is left out.
pub fn trimmed_start(v: &[char], from: usize, to: usize) -> (r: usize)
    requires
        from <= to <= v@.len(),
    ensures
        from <= r <= to,
        v@.subrange(r as int, to as int) == trim_start(v@.subrange(from as int, to as int)),
{
    let mut start: usize = from;
    while start < to && white_space(v[start])
        invariant
            from <= start <= to <= v@.len(),
            trim_start(v@.subrange(from as int, to as int)) == trim_start(
                v@.subrange(start as int, to as int),
            ),
        decreases to - start,
    {
        assert(v@.subrange(start as int, to as int).drop_first() =~= v@.subrange(
            start + 1,
            to as int,
        ));
        start = start + 1;
    }
    start
}

/// `s` without the white space at either end.
pub fn trimmed(s: &str) -> (r: String)
    ensures
        r@ == trim(s@),
{
    let v = chars_of(s);
    assert(v@.subrange(0, v@.len() as int) =~= v@);
    let start = trimmed_start(v.as_slice(), 0, v.len());
    let end = trimmed_end(v.as_slice(), start, v.len());
    text_of(v.as_slice(), start, end)
}

// ---------------------------------------------------------------------------------------------
// Splitting and joining
// ---------------------------------------------------------------------------------------------

/// The characters of each string of a list.
pub open spec fn texts(v: Seq<String>) -> Seq<Seq<char>> {
    v.map_values(|s: String| s@)
}

/// The pieces of `s` between the occurrences of `sep`; one piece more than there are occurrences.
pub open spec fn split(s: Seq<char>, sep: char) -> Seq<Seq<char>>
    decreases s.len(),
{
    if s.len() == 0 {
        seq![Seq::<char>::empty()]
    } else {
        let before = split(s.drop_last(), sep);
        if s.last() == sep {
            before.push(Seq::<char>::empty())
        } else {
            before.drop_last().push(before.last().push(s.last()))
        }
    }
}

/// The pieces of `s` that each end with the line feed that closes them, or with the end of `s`.
pub open spec fn split_inclusive(s: Seq<char>) -> Seq<Seq<char>>
    decreases s.len(),
{
    if s.len() == 0 {
        Seq::<Seq<char>>::empty()
    } else {
        let before = split_inclusive(s.drop_last());
        if before.len() == 0 || before.last().last() == '\n' {
            before.push(seq![s.last()])
        } else {
            before.drop_last().push(before.last().push(s.last()))
        }
    }
}

/// One piece of `split_inclusive` without its line ending: a line feed, or a carriage return and a
/// line feed. A piece that no line feed closes stays as it is.
pub open spec fn without_line_ending(piece: Seq<char>) -> Seq<char> {
    if piece.len() == 0 || piece.last() != '\n' {
        piece
    } else if piece.len() >= 2 && piece[piece.len() - 2] == '\r' {
        piece.take(piece.len() - 2)
    } else {
        piece.drop_last()
    }
}

/// The lines of `s`, without their line endings.
pub open spec fn lines(s: Seq<char>) -> Seq<Seq<char>> {
    split_inclusive(s).map_values(|piece: Seq<char>| without_line_ending(piece))
}

/// The pieces of `s` between runs of white space.
pub open spec fn words(s: Seq<char>) -> Seq<Seq<char>>
    decreases s.len(),
{
    if s.len() == 0 {
        Seq::<Seq<char>>::empty()
    } else {
        let before = words(s.drop_last());
        if is_white_space(s.last()) {
            before
        } else if s.len() >= 2 && !is_white_space(s[s.len() - 2]) {
            before.drop_last().push(before.last().push(s.last()))
        } else {
            before.push(seq![s.last()])
        }
    }
}

/// The parts one after another, with `sep` between neighbours.
pub open spec fn join(parts: Seq<Seq<char>>, sep: Seq<char>) -> Seq<char>
    decreases parts.len(),
{
    if parts.len() == 0 {
        Seq::<char>::empty()
    } else if parts.len() == 1 {
        parts[0]
    } else {
        join(parts.drop_last(), sep) + sep + parts.last()
    }
}

/// The parts one after another.
pub open spec fn concat(parts: Seq<Seq<char>>) -> Seq<char>
    decreases parts.len(),
{
    if parts.len() == 0 {
        Seq::<char>::empty()
    } else {
        concat(parts.drop_last()) + parts.last()
    }
}

/// There is always a piece.
pub proof fn lemma_split_len(s: Seq<char>, sep: char)
    ensures
        split(s, sep).len() > 0,
    decreases s.len(),
{
    if s.len() > 0 {
        lemma_split_len(s.drop_last(), sep);
    }
}

/// A separator and a tail without one make one more piece.
pub proof fn lemma_split_more(s: Seq<char>, tail: Seq<char>, sep: char)
    requires
        !tail.contains(sep),
    ensures
        split(s.push(sep) + tail, sep) == split(s, sep).push(tail),
    decreases tail.len(),
{
    let whole = s.push(sep) + tail;
    if tail.len() == 0 {
        assert(whole =~= s.push(sep));
        assert(whole.drop_last() =~= s);
        assert(tail =~= Seq::<char>::empty());
    } else {
        let rest = tail.drop_last();
        assert(!rest.contains(sep)) by {
            if rest.contains(sep) {
                let i = choose|i: int| 0 <= i < rest.len() && rest[i] == sep;
                assert(tail[i] == sep);
            }
        }
        lemma_split_more(s, rest, sep);
        assert(whole.drop_last() =~= s.push(sep) + rest);
        assert(tail.contains(tail[tail.len() - 1]));
        assert(whole.last() == tail.last());
        let before = split(s.push(sep) + rest, sep);
        assert(before.drop_last() =~= split(s, sep));
        assert(rest.push(tail.last()) =~= tail);
    }
}

/// What begins with a separator adds its pieces to those before it.
pub proof fn lemma_split_add(p: Seq<char>, q: Seq<char>, sep: char)
    requires
        q.len() > 0,
        q[0] == sep,
    ensures
        split(p + q, sep) == split(p, sep) + split(q, sep).drop_first(),
        split(q, sep).len() >= 2,
    decreases q.len(),
{
    lemma_split_len(p, sep);
    assert((p + q).drop_last() =~= p + q.drop_last());
    if q.len() == 1 {
        assert(p + q.drop_last() =~= p);
        assert(q.drop_last() =~= Seq::<char>::empty());
        let none = Seq::<char>::empty();
        assert(split(none, sep) =~= seq![none]);
        assert(split(q, sep) =~= seq![none, none]);
        assert(split(p + q, sep) =~= split(p, sep) + split(
            q,
            sep,
        ).drop_first());
    } else {
        let most = q.drop_last();
        lemma_split_add(p, most, sep);
        let a = split(p, sep);
        let b = split(most, sep);
        if q.last() == sep {
            assert((a + b.drop_first()).push(Seq::<char>::empty()) =~= a + b.push(
                Seq::<char>::empty(),
            ).drop_first());
        } else {
            let last = b.last().push(q.last());
            assert((a + b.drop_first()).last() == b.last());
            assert((a + b.drop_first()).drop_last().push(last) =~= a + b.drop_last().push(
                last,
            ).drop_first());
        }
    }
}

/// The pieces of `s` between the occurrences of `sep`.
pub fn split_on(s: &str, sep: char) -> (r: Vec<String>)
    ensures
        texts(r@) == split(s@, sep),
{
    let v = chars_of(s);
    let mut out: Vec<String> = Vec::new();
    let mut cur = String::new();
    let mut i: usize = 0;
    assert(texts(out@).push(cur@) =~= seq![Seq::<char>::empty()]);
    assert(v@.take(0) =~= Seq::<char>::empty());
    while i < v.len()
        invariant
            i <= v@.len(),
            texts(out@).push(cur@) == split(v@.take(i as int), sep),
        decreases v@.len() - i,
    {
        let c = v[i];
        let ghost before = texts(out@).push(cur@);
        assert(v@.take(i + 1).drop_last() =~= v@.take(i as int));
        assert(before.drop_last() =~= texts(out@));
        if c == sep {
            out.push(cur);
            assert(texts(out@) =~= before);
            cur = String::new();
        } else {
            cur.push(c);
        }
        i = i + 1;
    }
    assert(v@.take(v@.len() as int) =~= v@);
    let ghost whole = texts(out@).push(cur@);
    out.push(cur);
    assert(texts(out@) =~= whole);
    out
}

/// The pieces of `s` that each end with the line feed that closes them, or with the end of `s`.
pub fn split_at_line_feeds(s: &str) -> (r: Vec<String>)
    ensures
        texts(r@) == split_inclusive(s@),
{
    let v = chars_of(s);
    let mut out: Vec<String> = Vec::new();
    let mut cur = String::new();
    let mut open = false;
    let mut i: usize = 0;
    assert(texts(out@) =~= Seq::<Seq<char>>::empty());
    assert(v@.take(0) =~= Seq::<char>::empty());
    while i < v.len()
        invariant
            i <= v@.len(),
            !open ==> cur@.len() == 0 && texts(out@) == split_inclusive(v@.take(i as int)),
            open ==> cur@.len() > 0 && cur@.last() != '\n' && texts(out@).push(cur@)
                == split_inclusive(v@.take(i as int)),
            out@.len() > 0 ==> out@.last()@.len() > 0 && out@.last()@.last() == '\n',
        decreases v@.len() - i,
    {
        let c = v[i];
        let ghost before = split_inclusive(v@.take(i as int));
        assert(v@.take(i + 1).drop_last() =~= v@.take(i as int));
        assert(open ==> before.drop_last() =~= texts(out@));
        assert(!open ==> cur@.push(c) =~= seq![c]);
        cur.push(c);
        let ghost after = texts(out@).push(cur@);
        assert(after == split_inclusive(v@.take(i + 1)));
        if c == '\n' {
            out.push(cur);
            assert(texts(out@) =~= after);
            cur = String::new();
            open = false;
        } else {
            open = true;
        }
        i = i + 1;
    }
    assert(v@.take(v@.len() as int) =~= v@);
    if open {
        let ghost whole = texts(out@).push(cur@);
        out.push(cur);
        assert(texts(out@) =~= whole);
    }
    out
}

/// The lines of `s`, without their line endings.
pub fn lines_of(s: &str) -> (r: Vec<String>)
    ensures
        texts(r@) == lines(s@),
{
    let pieces = split_at_line_feeds(s);
    let mut out: Vec<String> = Vec::new();
    let mut i: usize = 0;
    while i < pieces.len()
        invariant
            i <= pieces@.len(),
            texts(pieces@) == split_inclusive(s@),
            texts(out@) == lines(s@).take(i as int),
        decreases pieces@.len() - i,
    {
        let p = chars_of(pieces[i].as_str());
        let n: usize = p.len();
        let ghost before = texts(out@);
        assert(texts(pieces@)[i as int] == p@);
        let end: usize = if n == 0 || p[n - 1] != '\n' {
            n
        } else if n >= 2 && p[n - 2] == '\r' {
            n - 2
        } else {
            n - 1
        };
        assert(p@.subrange(0, end as int) =~= without_line_ending(p@));
        out.push(text_of(p.as_slice(), 0, end));
        assert(texts(out@) =~= before.push(without_line_ending(p@)));
        assert(lines(s@).take(i + 1) =~= lines(s@).take(i as int).push(lines(s@)[i as int]));
        i = i + 1;
    }
    assert(lines(s@).take(lines(s@).len() as int) =~= lines(s@));
    out
}

/// The pieces of `s` between runs of white space.
pub fn words_of(s: &str) -> (r: Vec<String>)
    ensures
        texts(r@) == words(s@),
{
    let v = chars_of(s);
    let mut out: Vec<String> = Vec::new();
    let mut cur = String::new();
    let mut i: usize = 0;
    assert(texts(out@) =~= Seq::<Seq<char>>::empty());
    assert(v@.take(0) =~= Seq::<char>::empty());
    while i < v.len()
        invariant
            i <= v@.len(),
            cur@.len() > 0 <==> i > 0 && !is_white_space(v@[i - 1]),
            cur@.len() == 0 ==> texts(out@) == words(v@.take(i as int)),
            cur@.len() > 0 ==> texts(out@).push(cur@) == words(v@.take(i as int)),
        decreases v@.len() - i,
    {
        let c = v[i];
        let ghost before = words(v@.take(i as int));
        let ghost done = texts(out@);
        assert(v@.take(i + 1).drop_last() =~= v@.take(i as int));
        assert(done.push(cur@).drop_last() =~= done);
        if white_space(c) {
            if !cur.as_str().is_empty() {
                out.push(cur);
                assert(texts(out@) =~= done.push(cur@));
                cur = String::new();
            }
        } else {
            assert(cur@.len() == 0 ==> cur@.push(c) =~= seq![c]);
            cur.push(c);
        }
        i = i + 1;
    }
    assert(v@.take(v@.len() as int) =~= v@);
    if !cur.as_str().is_empty() {
        let ghost done = texts(out@);
        out.push(cur);
        assert(texts(out@) =~= done.push(cur@));
    }
    out
}

/// The parts one after another, with `sep` between neighbours.
pub fn join_with(parts: &Vec<String>, sep: &str) -> (r: String)
    ensures
        r@ == join(texts(parts@), sep@),
{
    let mut out = String::new();
    let mut i: usize = 0;
    assert(texts(parts@).take(0) =~= Seq::<Seq<char>>::empty());
    while i < parts.len()
        invariant
            i <= parts@.len(),
            out@ == join(texts(parts@).take(i as int), sep@),
        decreases parts@.len() - i,
    {
        let ghost all = texts(parts@);
        assert(all.take(i + 1).drop_last() =~= all.take(i as int));
        if i > 0 {
            out.append(sep);
        }
        out.append(parts[i].as_str());
        assert(out@ =~= join(all.take(i + 1), sep@));
        i = i + 1;
    }
    assert(texts(parts@).take(parts@.len() as int) =~= texts(parts@));
    out
}

} // verus!
