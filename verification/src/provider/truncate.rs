//! Shortening of tool descriptions.
//!
//! A description that is too long keeps its first sentence, and then as many of the others as fit,
//! those first that are densest in identifiers.
use crate::provider::truncate_laws;
use crate::text;
use vstd::prelude::*;

verus! {

// ---------------------------------------------------------------------------------------------
// What is trusted of the Unicode tables
// ---------------------------------------------------------------------------------------------

/// The pieces of a text between sentence boundaries.
pub uninterp spec fn sentence_bounds(s: Seq<char>) -> Seq<Seq<char>>;

/// The pieces of a text between word boundaries.
pub uninterp spec fn word_bounds(s: Seq<char>) -> Seq<Seq<char>>;

/// Whether a character is a letter or a number.
pub uninterp spec fn alphanumeric(c: char) -> bool;

/// Whether a character is a lower-case letter.
pub uninterp spec fn lowercase(c: char) -> bool;

/// Whether a character is an upper-case letter.
pub uninterp spec fn uppercase(c: char) -> bool;

/// `UnicodeSegmentation::split_sentence_bounds`: the pieces depend on the text alone, and one after
/// another they are the text.
#[verifier::external_body]
fn split_sentences(s: &str) -> (r: Vec<String>)
    ensures
        text::texts(r@) == sentence_bounds(s@),
        text::concat(text::texts(r@)) == s@,
{
    unicode_segmentation::UnicodeSegmentation::split_sentence_bounds(s).map(String::from).collect()
}

/// `UnicodeSegmentation::split_word_bounds`: the pieces depend on the text alone, and one after
/// another they are the text.
#[verifier::external_body]
fn split_words(s: &str) -> (r: Vec<String>)
    ensures
        text::texts(r@) == word_bounds(s@),
        text::concat(text::texts(r@)) == s@,
{
    unicode_segmentation::UnicodeSegmentation::split_word_bounds(s).map(String::from).collect()
}

/// `char::is_alphanumeric`: depends on the character alone.
pub assume_specification[ char::is_alphanumeric ](c: char) -> (r: bool)
    ensures
        r == alphanumeric(c),
;

/// `char::is_lowercase`: depends on the character alone.
pub assume_specification[ char::is_lowercase ](c: char) -> (r: bool)
    ensures
        r == lowercase(c),
;

/// `char::is_uppercase`: depends on the character alone.
pub assume_specification[ char::is_uppercase ](c: char) -> (r: bool)
    ensures
        r == uppercase(c),
;

// ---------------------------------------------------------------------------------------------
// Identifiers
// ---------------------------------------------------------------------------------------------

/// What the Unicode tables say of a character.
#[derive(Debug, Clone, Copy, PartialEq, Eq, Structural)]
pub struct Letter {
    pub alphanumeric: bool,
    pub lowercase: bool,
    pub uppercase: bool,
}

pub open spec fn letter(c: char) -> Letter {
    Letter { alphanumeric: alphanumeric(c), lowercase: lowercase(c), uppercase: uppercase(c) }
}

/// What the Unicode tables say of each character of a text.
pub open spec fn letters(s: Seq<char>) -> Seq<Letter> {
    s.map_values(|c: char| letter(c))
}

/// Whether a token looks like code rather than prose, going by its characters `tok` and what the
/// tables say of them: it is quoted, holds an underscore, a `::` or a digit, is a member of an
/// enumeration, has mixed case after its first character, or is a hyphenated compound.
pub open spec fn code_like(tok: Seq<char>, kinds: Seq<Letter>) -> bool {
    let is_member = tok.len() > 0 && tok.last() == ',';
    let word = if is_member {
        tok.drop_last()
    } else {
        tok
    };
    tok.contains('`') || tok.contains('_') || text::contains(tok, "::"@) || code_like_word(
        word,
        kinds,
        is_member,
    )
}

/// Whether a word looks like code: a member of an enumeration that holds a letter or a digit, or a
/// word with a digit, with mixed case after its first character, or with a hyphen inside it.
pub open spec fn code_like_word(word: Seq<char>, kinds: Seq<Letter>, is_member: bool) -> bool {
    ||| is_member && exists|i: int| 0 <= i < word.len() && (#[trigger] kinds[i]).alphanumeric
    ||| exists|i: int| 0 <= i < word.len() && text::is_digit(#[trigger] word[i])
    ||| {
        &&& exists|i: int| 0 <= i < word.len() && (#[trigger] kinds[i]).lowercase
        &&& exists|i: int| 1 <= i < word.len() && (#[trigger] kinds[i]).uppercase
    }
    ||| exists|i: int| #[trigger] hyphenates(word, kinds, i)
}

/// A hyphen at position `i` joins two letters or digits.
pub open spec fn hyphenates(word: Seq<char>, kinds: Seq<Letter>, i: int) -> bool {
    1 <= i < word.len() - 1 && word[i] == '-' && kinds[i - 1].alphanumeric && kinds[i
        + 1].alphanumeric
}

fn has_char(v: &Vec<char>, c: char) -> (r: bool)
    ensures
        r == v@.contains(c),
{
    let mut i: usize = 0;
    while i < v.len()
        invariant
            i <= v@.len(),
            forall|j: int| 0 <= j < i ==> v@[j] != c,
        decreases v@.len() - i,
    {
        if v[i] == c {
            assert(v@[i as int] == c);
            return true;
        }
        i = i + 1;
    }
    false
}

/// Whether a token looks like code, going by its characters and what the tables say of them.
pub fn looks_like_code(tok: &Vec<char>, kinds: &Vec<Letter>) -> (r: bool)
    requires
        kinds@.len() == tok@.len(),
    ensures
        r == code_like(tok@, kinds@),
{
    let colons = text::chars_of("::");
    let quoted = has_char(tok, '`');
    let scored = has_char(tok, '_');
    proof {
        text::lemma_first_at(tok@, colons@, 0);
    }
    let pathed = text::find_from(tok.as_slice(), colons.as_slice(), 0).is_some();
    assert(pathed == text::contains(tok@, "::"@)) by {
        if pathed {
            let i = text::first_at(tok@, colons@, 0)->0;
            assert(text::occurs_at(tok@, colons@, i));
        }
    }
    if quoted || scored || pathed {
        return true;
    }
    let total: usize = tok.len();
    let is_member = total > 0 && tok[total - 1] == ',';
    let n: usize = if is_member {
        total - 1
    } else {
        total
    };
    let ghost word = tok@.take(n as int);
    assert(is_member ==> word =~= tok@.drop_last());
    assert(!is_member ==> word =~= tok@);
    let mut some_alphanumeric = false;
    let mut some_digit = false;
    let mut some_lower = false;
    let mut late_upper = false;
    let mut compound = false;
    let mut i: usize = 0;
    while i < n
        invariant
            i <= n <= tok@.len(),
            kinds@.len() == tok@.len(),
            word == tok@.take(n as int),
            some_alphanumeric == exists|j: int|
                0 <= j < i && (#[trigger] kinds@[j]).alphanumeric,
            some_digit == exists|j: int| 0 <= j < i && text::is_digit(#[trigger] word[j]),
            some_lower == exists|j: int| 0 <= j < i && (#[trigger] kinds@[j]).lowercase,
            late_upper == exists|j: int| 1 <= j < i && (#[trigger] kinds@[j]).uppercase,
            compound == exists|j: int| j < i && #[trigger] hyphenates(word, kinds@, j),
        decreases n - i,
    {
        let c = tok[i];
        let k = kinds[i];
        assert(word[i as int] == c);
        if k.alphanumeric {
            assert(kinds@[i as int].alphanumeric);
            some_alphanumeric = true;
        }
        if c >= '0' && c <= '9' {
            assert(text::is_digit(word[i as int]));
            some_digit = true;
        }
        if k.lowercase {
            assert(kinds@[i as int].lowercase);
            some_lower = true;
        }
        if i >= 1 && k.uppercase {
            assert(kinds@[i as int].uppercase);
            late_upper = true;
        }
        if i >= 1 && i + 1 < n && c == '-' && kinds[i - 1].alphanumeric && kinds[i
            + 1].alphanumeric {
            assert(hyphenates(word, kinds@, i as int));
            compound = true;
        }
        i = i + 1;
    }
    assert(word.len() == n);
    assert(compound == exists|j: int| #[trigger] hyphenates(word, kinds@, j)) by {
        if exists|j: int| #[trigger] hyphenates(word, kinds@, j) {
            let j = choose|j: int| #[trigger] hyphenates(word, kinds@, j);
            assert(j < n && hyphenates(word, kinds@, j));
        }
    }
    let r = (is_member && some_alphanumeric) || some_digit || (some_lower && late_upper) || compound;
    assert(r == code_like_word(word, kinds@, is_member));
    r
}

fn letters_of(v: &Vec<char>) -> (r: Vec<Letter>)
    ensures
        r@ == letters(v@),
{
    let mut out: Vec<Letter> = Vec::new();
    let mut i: usize = 0;
    while i < v.len()
        invariant
            i <= v@.len(),
            out@ == letters(v@).take(i as int),
        decreases v@.len() - i,
    {
        let c = v[i];
        let l = Letter {
            alphanumeric: c.is_alphanumeric(),
            lowercase: c.is_lowercase(),
            uppercase: c.is_uppercase(),
        };
        out.push(l);
        assert(letters(v@).take(i + 1) =~= letters(v@).take(i as int).push(letter(c)));
        i = i + 1;
    }
    assert(letters(v@).take(v@.len() as int) =~= letters(v@));
    out
}

/// Whether a token looks like code rather than prose.
pub fn is_code_like(tok: &str) -> (r: bool)
    ensures
        r == code_like(tok@, letters(tok@)),
{
    let v = text::chars_of(tok);
    let kinds = letters_of(&v);
    looks_like_code(&v, &kinds)
}

/// How many of the tokens of a sentence look like code, of how many.
#[derive(Debug, Clone, Copy, PartialEq, Eq, Structural)]
pub struct Density {
    pub hits: usize,
    pub total: usize,
}

/// How many of the tokens look like code.
pub open spec fn code_tokens(toks: Seq<Seq<char>>) -> nat
    decreases toks.len(),
{
    if toks.len() == 0 {
        0
    } else if code_like(toks.last(), letters(toks.last())) {
        code_tokens(toks.drop_last()) + 1
    } else {
        code_tokens(toks.drop_last())
    }
}

/// The tokens of a sentence that look like code, of all its tokens.
pub open spec fn density_of(sentence: Seq<char>) -> Density {
    let toks = text::words(sentence);
    Density { hits: code_tokens(toks) as usize, total: toks.len() as usize }
}

/// The fraction of the tokens of a sentence that look like code.
pub fn identifier_density(sentence: &str) -> (r: Density)
    ensures
        r == density_of(sentence@),
        r.hits == code_tokens(text::words(sentence@)),
        r.total == text::words(sentence@).len(),
        r.hits <= r.total,
{
    let toks = text::words_of(sentence);
    let ghost all = text::texts(toks@);
    let mut hits: usize = 0;
    let mut i: usize = 0;
    assert(all.take(0) =~= Seq::<Seq<char>>::empty());
    while i < toks.len()
        invariant
            i <= toks@.len(),
            all == text::texts(toks@),
            hits <= i,
            hits == code_tokens(all.take(i as int)),
        decreases toks@.len() - i,
    {
        assert(all.take(i + 1).drop_last() =~= all.take(i as int));
        assert(all.take(i + 1).last() == toks@[i as int]@);
        if is_code_like(toks[i].as_str()) {
            hits = hits + 1;
        }
        i = i + 1;
    }
    assert(all.take(all.len() as int) =~= all);
    Density { hits, total: toks.len() }
}

// ---------------------------------------------------------------------------------------------
// Choosing sentences
// ---------------------------------------------------------------------------------------------

/// Marker between kept sentences that are not adjacent in the source.
pub const ELISION: &'static str = " … ";

/// Whether a sentence is denser in identifiers than another. A sentence without tokens has none.
pub open spec fn denser(a: Density, b: Density) -> bool {
    let at = if a.total == 0 {
        1int
    } else {
        a.total as int
    };
    let bt = if b.total == 0 {
        1int
    } else {
        b.total as int
    };
    a.hits * bt > b.hits * at
}

/// A ranking with sentence `k`, which comes after all its sentences, in its place: behind those that
/// are at least as dense.
pub open spec fn ranked_in(order: Seq<int>, k: int, scores: Seq<Density>) -> Seq<int>
    decreases order.len(),
{
    if order.len() > 0 && denser(scores[k], scores[order.last()]) {
        ranked_in(order.drop_last(), k, scores).push(order.last())
    } else {
        order.push(k)
    }
}

/// The sentences `1..n`, the densest first, and in their own order where they are equally dense.
pub open spec fn ranking(scores: Seq<Density>, n: int) -> Seq<int>
    decreases n,
{
    if n <= 1 {
        Seq::empty()
    } else {
        ranked_in(ranking(scores, n - 1), n - 1, scores)
    }
}

/// The characters of a sentence that count: those before the white space at its end.
pub open spec fn width(sentence: Seq<char>) -> nat {
    text::trim_end(sentence).len()
}

/// The white space at the end of a sentence.
pub open spec fn spaces(sentence: Seq<char>) -> nat {
    (sentence.len() - width(sentence)) as nat
}

/// By how much the white space at the end of a sentence is wider than a marker.
pub open spec fn excess(sentence: Seq<char>) -> nat {
    if spaces(sentence) > 3 {
        (spaces(sentence) - 3) as nat
    } else {
        0
    }
}

/// What keeping sentence `i` adds to the text, at most, where `keep` is kept already: its width and a
/// marker. Between adjacent sentences the text's own white space stands in place of the marker, so
/// that where it is wider it adds the difference.
pub open spec fn price(sents: Seq<Seq<char>>, keep: Seq<bool>, i: int) -> nat {
    width(sents[i]) + 3 + if keep[i - 1] {
        excess(sents[i - 1])
    } else {
        0
    } + if i + 1 < sents.len() && keep[i + 1] {
        excess(sents[i])
    } else {
        0
    }
}

/// Which sentences are kept, and how much of the budget they use.
#[verifier::ext_equal]
pub struct Picked {
    pub keep: Seq<bool>,
    pub used: nat,
}

/// The first sentence is kept in any case.
pub open spec fn first_only(sents: Seq<Seq<char>>) -> Picked {
    Picked { keep: Seq::new(sents.len(), |i: int| i == 0), used: width(sents[0]) }
}

/// The sentences of `order` are kept, one after another, as far as the budget of `max` characters
/// allows.
pub open spec fn picked(sents: Seq<Seq<char>>, order: Seq<int>, max: nat) -> Picked
    decreases order.len(),
{
    if order.len() == 0 {
        first_only(sents)
    } else {
        let before = picked(sents, order.drop_last(), max);
        let i = order.last();
        if before.used + price(sents, before.keep, i) <= max {
            Picked {
                keep: before.keep.update(i, true),
                used: before.used + price(sents, before.keep, i),
            }
        } else {
            before
        }
    }
}

/// A shortened text that is being put together: what is done, and the run of adjacent sentences that
/// is still open.
#[verifier::ext_equal]
pub struct Rebuilt {
    pub done: Seq<char>,
    pub run: Option<Seq<char>>,
}

/// The open run is done.
pub open spec fn run_closed(b: Rebuilt) -> Rebuilt {
    match b.run {
        Some(r) => Rebuilt { done: b.done + text::trim_end(r), run: None },
        None => b,
    }
}

/// The first `n` sentences, those that are not kept left out.
pub open spec fn rebuilt(sents: Seq<Seq<char>>, keep: Seq<bool>, n: nat) -> Rebuilt
    decreases n,
{
    if n == 0 {
        Rebuilt { done: Seq::empty(), run: None }
    } else {
        let before = rebuilt(sents, keep, (n - 1) as nat);
        let u = sents[n - 1];
        if keep[n - 1] {
            match before.run {
                Some(r) => Rebuilt { done: before.done, run: Some(r + u) },
                None => Rebuilt {
                    done: if before.done.len() == 0 {
                        before.done
                    } else {
                        before.done + ELISION@
                    },
                    run: Some(u),
                },
            }
        } else {
            run_closed(before)
        }
    }
}

/// The kept sentences in their order, a marker over each gap, and an ellipsis where the end is left
/// out.
pub open spec fn assembled(sents: Seq<Seq<char>>, keep: Seq<bool>) -> Seq<char> {
    let body = run_closed(rebuilt(sents, keep, sents.len())).done;
    if keep[sents.len() - 1] {
        body
    } else {
        body.push('…')
    }
}

/// The sentences that fit into `max` characters, put together; `None` where not even the first fits.
pub open spec fn selected(sents: Seq<Seq<char>>, scores: Seq<Density>, max: nat) -> Option<
    Seq<char>,
> {
    if sents.len() == 0 || width(sents[0]) > max {
        None
    } else {
        Some(
            assembled(
                sents,
                picked(sents, ranking(scores, sents.len() as int), max).keep,
            ),
        )
    }
}

fn is_denser(a: Density, b: Density) -> (r: bool)
    ensures
        r == denser(a, b),
{
    let at: u128 = if a.total == 0 {
        1
    } else {
        a.total as u128
    };
    let bt: u128 = if b.total == 0 {
        1
    } else {
        b.total as u128
    };
    let ah: u128 = a.hits as u128;
    let bh: u128 = b.hits as u128;
    proof {
        lemma_product_fits(ah as int, bt as int);
        lemma_product_fits(bh as int, at as int);
    }
    ah * bt > bh * at
}

proof fn lemma_product_fits(x: int, y: int)
    requires
        0 <= x <= 0xffff_ffff_ffff_ffff,
        0 <= y <= 0xffff_ffff_ffff_ffff,
    ensures
        0 <= x * y <= u128::MAX,
{
    assert(0 <= x * y <= 0xffff_ffff_ffff_ffff * 0xffff_ffff_ffff_ffff) by (nonlinear_arith)
        requires
            0 <= x <= 0xffff_ffff_ffff_ffff,
            0 <= y <= 0xffff_ffff_ffff_ffff,
    ;
}

/// Positions as integers.
pub open spec fn positions(v: Seq<usize>) -> Seq<int> {
    v.map_values(|i: usize| i as int)
}

/// Puts `k` in its place in a ranking.
fn rank_in(order: &mut Vec<usize>, k: usize, scores: &Vec<Density>)
    requires
        1 <= k < scores@.len(),
        forall|i: int|
            0 <= i < old(order)@.len() ==> 1 <= #[trigger] old(order)@[i] < scores@.len(),
    ensures
        positions(final(order)@) == ranked_in(positions(old(order)@), k as int, scores@),
        forall|i: int|
            0 <= i < final(order)@.len() ==> 1 <= #[trigger] final(order)@[i] < scores@.len(),
        final(order)@.len() == old(order)@.len() + 1,
{
    let ghost all = positions(order@);
    let mut at: usize = order.len();
    assert(all.take(at as int) =~= all);
    assert(all.skip(at as int) =~= Seq::<int>::empty());
    assert(ranked_in(all, k as int, scores@) + Seq::<int>::empty() =~= ranked_in(
        all,
        k as int,
        scores@,
    ));
    while at > 0 && is_denser(scores[k], scores[order[at - 1]])
        invariant
            at <= order@.len(),
            k < scores@.len(),
            all == positions(order@),
            order@ == old(order)@,
            forall|i: int| 0 <= i < order@.len() ==> 1 <= #[trigger] order@[i] < scores@.len(),
            ranked_in(all, k as int, scores@) == ranked_in(all.take(at as int), k as int, scores@)
                + all.skip(at as int),
        decreases at,
    {
        let ghost here = all.take(at as int);
        assert(here.last() == order@[at - 1] as int);
        assert(here.drop_last() =~= all.take(at - 1));
        let ghost inner = ranked_in(all.take(at - 1), k as int, scores@);
        assert(inner.push(here.last()) + all.skip(at as int) =~= inner + all.skip(at - 1));
        at = at - 1;
    }
    let ghost here = all.take(at as int);
    assert(at > 0 ==> here.last() == order@[at - 1] as int);
    assert(ranked_in(here, k as int, scores@) == here.push(k as int));
    order.insert(at, k);
    assert(positions(order@) =~= here.push(k as int) + all.skip(at as int));
}

/// The sentences after the first, the densest first.
fn rank(scores: &Vec<Density>) -> (r: Vec<usize>)
    ensures
        positions(r@) == ranking(scores@, scores@.len() as int),
        forall|i: int| 0 <= i < r@.len() ==> 1 <= #[trigger] r@[i] < scores@.len(),
{
    let mut order: Vec<usize> = Vec::new();
    let mut k: usize = 1;
    assert(positions(order@) =~= Seq::<int>::empty());
    while k < scores.len()
        invariant
            1 <= k,
            k <= scores@.len() || order@.len() == 0,
            positions(order@) == ranking(scores@, k as int),
            forall|i: int| 0 <= i < order@.len() ==> 1 <= #[trigger] order@[i] < scores@.len(),
        decreases scores@.len() - k,
    {
        rank_in(&mut order, k, scores);
        k = k + 1;
    }
    assert(positions(order@) =~= ranking(scores@, scores@.len() as int));
    order
}

fn width_of(s: &str) -> (r: usize)
    ensures
        r == width(s@),
{
    let v = text::chars_of(s);
    assert(v@.subrange(0, v@.len() as int) =~= v@);
    text::trimmed_end(v.as_slice(), 0, v.len())
}

fn excess_of(s: &str) -> (r: usize)
    ensures
        r == excess(s@),
{
    let v = text::chars_of(s);
    assert(v@.subrange(0, v@.len() as int) =~= v@);
    let n: usize = v.len() - text::trimmed_end(v.as_slice(), 0, v.len());
    if n > 3 {
        n - 3
    } else {
        0
    }
}

/// What keeping sentence `i` adds to the text, at most.
fn price_of(sents: &Vec<String>, keep: &Vec<bool>, i: usize) -> (r: u128)
    requires
        1 <= i < sents@.len(),
        keep@.len() == sents@.len(),
    ensures
        r == price(text::texts(sents@), keep@, i as int),
        r <= 0xffff_ffff_ffff_ffff_ffff,
{
    let ghost all = text::texts(sents@);
    assert(all[i as int] == sents@[i as int]@);
    assert(all[i - 1] == sents@[i - 1]@);
    let mut r: u128 = width_of(sents[i].as_str()) as u128 + 3;
    if keep[i - 1] {
        r = r + excess_of(sents[i - 1].as_str()) as u128;
    }
    if i < sents.len() - 1 && keep[i + 1] {
        r = r + excess_of(sents[i].as_str()) as u128;
    }
    r
}

/// Which sentences are kept.
fn pick(sents: &Vec<String>, order: &Vec<usize>, max: usize) -> (r: Vec<bool>)
    requires
        sents@.len() > 0,
        width(sents@[0]@) <= max,
        forall|i: int| 0 <= i < order@.len() ==> 1 <= #[trigger] order@[i] < sents@.len(),
    ensures
        r@ == picked(text::texts(sents@), positions(order@), max as nat).keep,
        r@.len() == sents@.len(),
{
    let ghost all = text::texts(sents@);
    let ghost ord = positions(order@);
    let mut keep: Vec<bool> = Vec::new();
    let mut i: usize = 0;
    while i < sents.len()
        invariant
            i <= sents@.len(),
            keep@.len() == i,
            forall|j: int| 0 <= j < i ==> #[trigger] keep@[j] == (j == 0),
        decreases sents@.len() - i,
    {
        keep.push(i == 0);
        i = i + 1;
    }
    assert(all[0] == sents@[0]@);
    let mut used: usize = width_of(sents[0].as_str());
    let mut k: usize = 0;
    assert(ord.take(0) =~= Seq::<int>::empty());
    assert(keep@ =~= first_only(all).keep);
    while k < order.len()
        invariant
            k <= order@.len(),
            all == text::texts(sents@),
            ord == positions(order@),
            keep@.len() == sents@.len(),
            used <= max,
            keep@ == picked(all, ord.take(k as int), max as nat).keep,
            used == picked(all, ord.take(k as int), max as nat).used,
            forall|i: int| 0 <= i < order@.len() ==> 1 <= #[trigger] order@[i] < sents@.len(),
        decreases order@.len() - k,
    {
        let j = order[k];
        assert(ord.take(k + 1).drop_last() =~= ord.take(k as int));
        assert(ord.take(k + 1).last() == j as int);
        let more: u128 = price_of(sents, &keep, j);
        if more <= (max - used) as u128 {
            keep.set(j, true);
            used = used + more as usize;
        }
        k = k + 1;
    }
    assert(ord.take(ord.len() as int) =~= ord);
    keep
}

fn close_run(done: &mut String, run: &str)
    ensures
        final(done)@ == old(done)@ + text::trim_end(run@),
{
    let v = text::chars_of(run);
    assert(v@.subrange(0, v@.len() as int) =~= v@);
    let end = text::trimmed_end(v.as_slice(), 0, v.len());
    let kept = text::text_of(v.as_slice(), 0, end);
    done.append(kept.as_str());
}

/// Puts the kept sentences together.
pub fn assemble(sents: &Vec<String>, keep: &Vec<bool>) -> (r: String)
    requires
        sents@.len() > 0,
        keep@.len() == sents@.len(),
    ensures
        r@ == assembled(text::texts(sents@), keep@),
{
    let ghost all = text::texts(sents@);
    let mut done = String::new();
    let mut run = String::new();
    let mut open = false;
    let mut i: usize = 0;
    while i < sents.len()
        invariant
            i <= sents@.len(),
            keep@.len() == sents@.len(),
            all == text::texts(sents@),
            done@ == rebuilt(all, keep@, i as nat).done,
            open == (rebuilt(all, keep@, i as nat).run is Some),
            open ==> rebuilt(all, keep@, i as nat).run == Some(run@),
        decreases sents@.len() - i,
    {
        let u = sents[i].as_str();
        assert(all[i as int] == u@);
        if keep[i] {
            if open {
                run.append(u);
            } else {
                if !done.as_str().is_empty() {
                    done.append(ELISION);
                }
                run = u.to_owned();
                open = true;
            }
        } else if open {
            close_run(&mut done, run.as_str());
            open = false;
        }
        i = i + 1;
    }
    if open {
        close_run(&mut done, run.as_str());
    }
    if !keep[keep.len() - 1] {
        done.push('…');
    }
    done
}

/// The sentences that fit into `max` characters, put together, where `scores` says how dense in
/// identifiers each is; `None` where not even the first fits.
pub fn select_scored(sents: &Vec<String>, scores: &Vec<Density>, max: usize) -> (r: Option<String>)
    requires
        scores@.len() == sents@.len(),
    ensures
        match r {
            Some(s) => selected(text::texts(sents@), scores@, max as nat) == Some(s@),
            None => selected(text::texts(sents@), scores@, max as nat) is None,
        },
{
    if sents.len() == 0 {
        return None;
    }
    assert(text::texts(sents@)[0] == sents@[0]@);
    if width_of(sents[0].as_str()) > max {
        return None;
    }
    let order = rank(scores);
    let keep = pick(sents, &order, max);
    Some(assemble(sents, &keep))
}

/// How dense in identifiers each sentence is.
pub open spec fn densities(sents: Seq<Seq<char>>) -> Seq<Density> {
    sents.map_values(|u: Seq<char>| density_of(u))
}

/// The sentences of `s` that fit into `max` characters, put together; `None` where not even the first
/// fits.
pub fn select_salient_sentences(s: &str, max: usize) -> (r: Option<String>)
    ensures
        match r {
            Some(t) => selected(
                sentence_bounds(s@),
                densities(sentence_bounds(s@)),
                max as nat,
            ) == Some(t@),
            None => selected(
                sentence_bounds(s@),
                densities(sentence_bounds(s@)),
                max as nat,
            ) is None,
        },
{
    let sents = split_sentences(s);
    let ghost all = text::texts(sents@);
    let mut scores: Vec<Density> = Vec::new();
    let mut i: usize = 0;
    while i < sents.len()
        invariant
            i <= sents@.len(),
            all == text::texts(sents@),
            scores@ == densities(all).take(i as int),
        decreases sents@.len() - i,
    {
        assert(all[i as int] == sents@[i as int]@);
        scores.push(identifier_density(sents[i].as_str()));
        assert(densities(all).take(i + 1) =~= densities(all).take(i as int).push(
            density_of(all[i as int]),
        ));
        i = i + 1;
    }
    assert(densities(all).take(all.len() as int) =~= densities(all));
    select_scored(&sents, &scores, max)
}

// ---------------------------------------------------------------------------------------------
// Cutting
// ---------------------------------------------------------------------------------------------

/// How many characters the longest run of whole units from the first has that fits into `max`.
pub open spec fn fit(units: Seq<Seq<char>>, max: int) -> nat
    decreases units.len(),
{
    if units.len() == 0 || units[0].len() > max {
        0
    } else {
        units[0].len() + fit(units.skip(1), max - units[0].len())
    }
}

/// How many whole units from the first fit into `max` characters.
pub open spec fn fitting(units: Seq<Seq<char>>, max: int) -> nat
    decreases units.len(),
{
    if units.len() == 0 || units[0].len() > max {
        0
    } else {
        1 + fitting(units.skip(1), max - units[0].len())
    }
}

/// How many bytes the units have in UTF-8.
pub open spec fn total_bytes(units: Seq<Seq<char>>) -> nat
    decreases units.len(),
{
    if units.len() == 0 {
        0
    } else {
        total_bytes(units.drop_last()) + vstd::utf8::encode_utf8(units.last()).len()
    }
}

/// How many bytes the longest run of whole units from the first has that fits into `max` characters.
pub open spec fn fitting_bytes(units: Seq<Seq<char>>, max: int) -> nat {
    total_bytes(units.take(fitting(units, max) as int))
}

/// The longest run of whole units from the first that fits: how many characters and bytes it has.
fn longest_run(units: &Vec<String>, max: usize) -> (r: (usize, u128))
    ensures
        r.0 == fit(text::texts(units@), max as int),
        r.0 <= max,
        r.1 == fitting_bytes(text::texts(units@), max as int),
{
    let ghost all = text::texts(units@);
    let mut chars: usize = 0;
    let mut bytes: u128 = 0;
    let mut i: usize = 0;
    assert(all.skip(0) =~= all);
    assert(all.take(0) =~= Seq::<Seq<char>>::empty());
    while i < units.len()
        invariant_except_break
            fit(all, max as int) == chars + fit(all.skip(i as int), max - chars),
            fitting(all, max as int) == i + fitting(all.skip(i as int), max - chars),
        invariant
            i <= units@.len(),
            all == text::texts(units@),
            chars <= max,
            bytes == total_bytes(all.take(i as int)),
            bytes <= i * (usize::MAX as int),
        ensures
            fit(all, max as int) == chars,
            fitting(all, max as int) == i,
        decreases units@.len() - i,
    {
        let u = units[i].as_str();
        let v = text::chars_of(u);
        assert(all.skip(i as int)[0] == v@);
        assert(all.skip(i as int).skip(1) =~= all.skip(i + 1));
        if v.len() > max - chars {
            break;
        }
        chars = chars + v.len();
        assert(all.take(i + 1).drop_last() =~= all.take(i as int));
        assert(all.take(i + 1).last() == u@);
        let n: usize = u.as_bytes().len();
        proof {
            lemma_run_fits(i as int);
            assert(i * (usize::MAX as int) + usize::MAX == (i + 1) * (usize::MAX as int))
                by (nonlinear_arith);
        }
        bytes = bytes + n as u128;
        i = i + 1;
    }
    (chars, bytes)
}

proof fn lemma_run_fits(i: int)
    requires
        0 <= i < usize::MAX,
    ensures
        i * (usize::MAX as int) + usize::MAX <= u128::MAX,
{
    assert(i * (usize::MAX as int) + usize::MAX <= u128::MAX) by (nonlinear_arith)
        requires
            0 <= i < usize::MAX,
            usize::MAX <= 0xffff_ffff_ffff_ffff,
    ;
}

/// The first units have no more bytes than all of them.
proof fn lemma_bytes_of_a_start(units: Seq<Seq<char>>, k: int)
    requires
        0 <= k <= units.len(),
    ensures
        total_bytes(units.take(k)) <= total_bytes(units),
    decreases units.len(),
{
    if k == units.len() {
        assert(units.take(k) =~= units);
    } else {
        lemma_bytes_of_a_start(units.drop_last(), k);
        assert(units.drop_last().take(k) =~= units.take(k));
    }
}

proof fn lemma_fitting_bound(units: Seq<Seq<char>>, max: int)
    ensures
        fitting(units, max) <= units.len(),
    decreases units.len(),
{
    if units.len() > 0 && units[0].len() <= max {
        lemma_fitting_bound(units.skip(1), max - units[0].len());
    }
}

/// How many bytes the longest run of whole units from the first has that fits into `max` characters;
/// `None` where it has none.
pub fn fit_units(units: &Vec<String>, max: usize) -> (r: Option<usize>)
    requires
        total_bytes(text::texts(units@)) <= usize::MAX,
    ensures
        match r {
            Some(n) => n == fitting_bytes(text::texts(units@), max as int) && n > 0,
            None => fitting_bytes(text::texts(units@), max as int) == 0,
        },
{
    let (_, bytes) = longest_run(units, max);
    proof {
        let all = text::texts(units@);
        lemma_fitting_bound(all, max as int);
        lemma_bytes_of_a_start(all, fitting(all, max as int) as int);
    }
    if bytes > 0 {
        Some(bytes as usize)
    } else {
        None
    }
}

/// A text of more than `max` characters cut short: after a whole line, else after a whole word, else
/// in the middle of its first word.
pub open spec fn cut(s: Seq<char>, max: nat, words: Seq<Seq<char>>) -> Seq<char> {
    let by_line = fit(text::split_inclusive(s), max as int);
    let by_word = fit(words, max as int);
    if by_line > 0 {
        text::trim_end(s.take(by_line as int)).push('…')
    } else if by_word > 0 {
        text::trim_end(s.take(by_word as int)).push('…')
    } else {
        s.take(max as int).push('…')
    }
}

/// Cuts a text of more than `max` characters short, where `words` are the units that it may be cut
/// after if no line fits.
pub fn cut_short(s: &str, max: usize, words: &Vec<String>) -> (r: String)
    requires
        s@.len() > max,
    ensures
        r@ == cut(s@, max as nat, text::texts(words@)),
{
    let v = text::chars_of(s);
    let lines = text::split_at_line_feeds(s);
    let (by_line, _) = longest_run(&lines, max);
    let n: usize = if by_line > 0 {
        by_line
    } else {
        longest_run(words, max).0
    };
    let mut out = if n > 0 {
        assert(v@.subrange(0, n as int) =~= s@.take(n as int));
        let end = text::trimmed_end(v.as_slice(), 0, n);
        text::text_of(v.as_slice(), 0, end)
    } else {
        assert(v@.subrange(0, max as int) =~= s@.take(max as int));
        text::text_of(v.as_slice(), 0, max)
    };
    out.push('…');
    out
}

/// A text of at most `max` characters as it is; a longer one as its salient sentences, else cut
/// short.
pub open spec fn truncated(s: Seq<char>, max: nat) -> Seq<char> {
    if s.len() <= max {
        s
    } else {
        let sents = sentence_bounds(s);
        match selected(sents, densities(sents), max) {
            Some(t) => t,
            None => cut(s, max, word_bounds(s)),
        }
    }
}

/// Truncates `s` to at most `max` characters and an ellipsis.
pub fn truncate_chars(s: &mut String, max: usize)
    ensures
        final(s)@ == truncated(old(s)@, max as nat),
        old(s)@.len() <= max ==> final(s)@ == old(s)@,
        old(s)@.len() > max ==> final(s)@.len() <= max + 1,
{
    proof {
        truncate_laws::law_truncation_keeps_the_budget(s@, max as nat);
    }
    let v = text::chars_of(s.as_str());
    if v.len() <= max {
        return;
    }
    match select_salient_sentences(s.as_str(), max) {
        Some(t) => {
            *s = t;
        },
        None => {
            let words = split_words(s.as_str());
            let t = cut_short(s.as_str(), max, &words);
            *s = t;
        },
    }
}

} // verus!
