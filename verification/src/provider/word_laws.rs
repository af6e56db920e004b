//! What makes a token look like code, what makes a sentence dense, and where a text is cut.
use crate::provider::truncate;
use crate::provider::truncate::{Density, Letter};
use crate::provider::truncate_laws;
use crate::text;
use crate::text_laws;
use vstd::prelude::*;

verus! {

// ---------------------------------------------------------------------------------------------
// Tokens
// ---------------------------------------------------------------------------------------------

/// A token with a backtick, an underscore or two colons in it looks like code, whatever is around
/// them.
pub proof fn law_quotes_scores_and_paths_are_code(
    a: Seq<char>,
    b: Seq<char>,
    tok: Seq<char>,
    kinds: Seq<Letter>,
)
    requires
        tok == a + seq!['`'] + b || tok == a + seq!['_'] + b || tok == a + seq![':', ':'] + b,
    ensures
        truncate::code_like(tok, kinds),
{
    reveal_strlit("::");
    let n = a.len() as int;
    assert((a + seq!['`'] + b)[n] == '`');
    assert((a + seq!['_'] + b)[n] == '_');
    let pathed = a + seq![':', ':'] + b;
    assert(pathed.subrange(n, n + 2) =~= "::"@);
    assert(tok == pathed ==> text::occurs_at(tok, "::"@, n));
}

/// A token with a digit in it looks like code.
pub proof fn law_digits_are_code(tok: Seq<char>, kinds: Seq<Letter>, i: int)
    requires
        0 <= i < tok.len(),
        '0' <= tok[i] <= '9',
    ensures
        truncate::code_like(tok, kinds),
{
    if tok.last() == ',' {
        assert(tok.drop_last()[i] == tok[i]);
        assert(text::is_digit(tok.drop_last()[i]));
    } else {
        assert(text::is_digit(tok[i]));
    }
}

/// A token with a lower-case letter and, after its first character, an upper-case one looks like code.
pub proof fn law_mixed_case_is_code(tok: Seq<char>, kinds: Seq<Letter>, i: int, j: int)
    requires
        0 <= i < tok.len(),
        1 <= j < tok.len(),
        kinds[i].lowercase,
        kinds[j].uppercase,
        tok.last() != ',' || i < tok.len() - 1 && j < tok.len() - 1,
    ensures
        truncate::code_like(tok, kinds),
{
}

/// A token whose hyphen joins two letters or digits looks like code, a comma behind it left aside.
pub proof fn law_compounds_are_code(tok: Seq<char>, kinds: Seq<Letter>, i: int)
    requires
        1 <= i < tok.len() - 1,
        tok[i] == '-',
        kinds[i - 1].alphanumeric,
        kinds[i + 1].alphanumeric,
        tok.last() != ',' || i < tok.len() - 2,
    ensures
        truncate::code_like(tok, kinds),
{
    if tok.last() == ',' {
        assert(truncate::hyphenates(tok.drop_last(), kinds, i));
    } else {
        assert(truncate::hyphenates(tok, kinds, i));
    }
}

/// A token that a comma closes looks like code where it holds a letter or a digit before it.
pub proof fn law_members_are_code(tok: Seq<char>, kinds: Seq<Letter>, i: int)
    requires
        0 <= i < tok.len() - 1,
        tok.last() == ',',
        kinds[i].alphanumeric,
    ensures
        truncate::code_like(tok, kinds),
{
}

/// An upper-case character may only be the first.
pub open spec fn plain_case(kinds: Seq<Letter>, n: int) -> bool {
    forall|i: int| 0 < i < n ==> !(#[trigger] kinds[i]).uppercase
}

/// A token of prose does not look like code: one with letters of plain case and other characters that
/// are no digit, underscore, backtick or colon, with no hyphen between two letters or digits, and with
/// no comma at its end.
pub proof fn law_prose_is_not_code(tok: Seq<char>, kinds: Seq<Letter>)
    requires
        plain_case(kinds, tok.len() as int) || (forall|i: int|
            0 <= i < tok.len() ==> !(#[trigger] kinds[i]).lowercase),
        forall|i: int|
            0 <= i < tok.len() ==> !('0' <= #[trigger] tok[i] <= '9') && tok[i] != '_' && tok[i]
                != '`' && tok[i] != ':' && (tok[i] == '-' ==> i == 0 || i == tok.len() - 1
                || !kinds[i - 1].alphanumeric || !kinds[i + 1].alphanumeric),
        tok.len() > 0 ==> tok.last() != ',',
    ensures
        !truncate::code_like(tok, kinds),
{
    reveal_strlit("::");
    if text::contains(tok, "::"@) {
        let i = choose|i: int| text::occurs_at(tok, "::"@, i);
        assert(tok.subrange(i, i + 2)[0] == tok[i]);
        assert("::"@[0] == ':');
    }
    if exists|i: int| #[trigger] truncate::hyphenates(tok, kinds, i) {
        let i = choose|i: int| #[trigger] truncate::hyphenates(tok, kinds, i);
        assert(tok[i] == '-');
    }
}

/// A token without a letter or a digit, and without the marks of code, does not look like code, a
/// comma at its end or not.
pub proof fn law_marks_alone_are_not_code(tok: Seq<char>, kinds: Seq<Letter>)
    requires
        forall|i: int|
            0 <= i < tok.len() ==> !('0' <= #[trigger] tok[i] <= '9') && tok[i] != '_' && tok[i]
                != '`' && tok[i] != ':',
        forall|i: int|
            0 <= i < tok.len() ==> !(#[trigger] kinds[i]).alphanumeric && !kinds[i].lowercase,
    ensures
        !truncate::code_like(tok, kinds),
{
    reveal_strlit("::");
    if text::contains(tok, "::"@) {
        let i = choose|i: int| text::occurs_at(tok, "::"@, i);
        assert(tok.subrange(i, i + 2)[0] == tok[i]);
        assert("::"@[0] == ':');
    }
    let word = if tok.len() > 0 && tok.last() == ',' {
        tok.drop_last()
    } else {
        tok
    };
    assert forall|i: int| 0 <= i < word.len() implies !text::is_digit(#[trigger] word[i]) by {
        assert(word[i] == tok[i]);
    }
    if exists|i: int| #[trigger] truncate::hyphenates(word, kinds, i) {
        let i = choose|i: int| #[trigger] truncate::hyphenates(word, kinds, i);
        assert(kinds[i - 1].alphanumeric);
    }
}

// ---------------------------------------------------------------------------------------------
// Density
// ---------------------------------------------------------------------------------------------

/// Each character of a token is looked up for itself.
pub proof fn law_characters_are_looked_up(tok: Seq<char>, i: int)
    requires
        0 <= i < tok.len(),
    ensures
        truncate::letters(tok).len() == tok.len(),
        truncate::letters(tok)[i].alphanumeric == truncate::alphanumeric(tok[i]),
        truncate::letters(tok)[i].lowercase == truncate::lowercase(tok[i]),
        truncate::letters(tok)[i].uppercase == truncate::uppercase(tok[i]),
{
}

/// Every token that looks like code counts once, wherever it stands, and no other counts.
pub proof fn law_code_tokens_are_counted(a: Seq<Seq<char>>, b: Seq<Seq<char>>, tok: Seq<char>)
    ensures
        truncate::code_tokens(Seq::<Seq<char>>::empty()) == 0,
        truncate::code_tokens(a + b) == truncate::code_tokens(a) + truncate::code_tokens(b),
        truncate::code_tokens(seq![tok]) == if truncate::code_like(tok, truncate::letters(tok)) {
            1nat
        } else {
            0
        },
    decreases b.len(),
{
    assert(seq![tok].drop_last() =~= Seq::<Seq<char>>::empty());
    reveal_with_fuel(truncate::code_tokens, 2);
    if b.len() == 0 {
        assert(a + b =~= a);
    } else {
        law_code_tokens_are_counted(a, b.drop_last(), tok);
        assert((a + b).drop_last() =~= a + b.drop_last());
    }
}

/// Two sentences that white space parts have the tokens of both, and those that look like code.
pub proof fn law_densities_add_up(a: Seq<char>, c: char, b: Seq<char>)
    requires
        text::is_white_space(c),
        text::words(a.push(c) + b).len() <= usize::MAX,
    ensures
        ({
            let whole = truncate::density_of(a.push(c) + b);
            let left = truncate::density_of(a);
            let right = truncate::density_of(b);
            &&& whole.total == left.total + right.total
            &&& whole.hits == left.hits + right.hits
            &&& whole.hits <= whole.total
        }),
{
    text_laws::law_white_space_parts_words(a, c, b, a);
    law_code_tokens_are_counted(text::words(a), text::words(b), a);
    lemma_hits_bound(text::words(a));
    lemma_hits_bound(text::words(b));
}

proof fn lemma_hits_bound(toks: Seq<Seq<char>>)
    ensures
        truncate::code_tokens(toks) <= toks.len(),
    decreases toks.len(),
{
    if toks.len() > 0 {
        lemma_hits_bound(toks.drop_last());
    }
}

/// A sentence of one token is as dense as can be where the token looks like code, and not at all where
/// it does not.
pub proof fn law_one_token_decides(run: Seq<char>)
    requires
        run.len() > 0,
        forall|i: int| 0 <= i < run.len() ==> !text::is_white_space(#[trigger] run[i]),
    ensures
        truncate::density_of(run).total == 1,
        truncate::density_of(run).hits == if truncate::code_like(run, truncate::letters(run)) {
            1int
        } else {
            0
        },
{
    text_laws::law_white_space_parts_words(run, ' ', run, run);
    law_code_tokens_are_counted(Seq::empty(), Seq::empty(), run);
}

/// Of two sentences with equally many tokens that one is denser that has more that look like code; of
/// two with equally many of those, the one with fewer tokens; one with none is denser than no other.
pub proof fn law_denser_means_more_of_the_tokens(a: Density, b: Density)
    ensures
        a.total == b.total ==> truncate::denser(a, b) == (a.hits > b.hits),
        a.hits == b.hits && a.hits > 0 && a.total > 0 && b.total > 0 ==> truncate::denser(a, b)
            == (a.total < b.total),
        a.hits == 0 ==> !truncate::denser(a, b),
        a.hits > 0 && b.hits == 0 ==> truncate::denser(a, b),
        a.total > 0 && b.total > 0 ==> truncate::denser(a, b) == (a.hits * b.total > b.hits
            * a.total),
{
    let at = if a.total == 0 {
        1int
    } else {
        a.total as int
    };
    let bt = if b.total == 0 {
        1int
    } else {
        b.total as int
    };
    let ah = a.hits as int;
    let bh = b.hits as int;
    assert(at == bt ==> ((ah * bt > bh * at) == (ah > bh))) by (nonlinear_arith)
        requires
            at > 0,
            bt > 0,
    ;
    assert(ah == bh && ah > 0 ==> ((ah * bt > bh * at) == (at < bt))) by (nonlinear_arith)
        requires
            at > 0,
            bt > 0,
    ;
    assert(ah == 0 ==> !(ah * bt > bh * at)) by (nonlinear_arith)
        requires
            at > 0,
            bt > 0,
            bh >= 0,
    ;
    assert(ah > 0 && bh == 0 ==> ah * bt > bh * at) by (nonlinear_arith)
        requires
            at > 0,
            bt > 0,
    ;
}

// ---------------------------------------------------------------------------------------------
// Cutting
// ---------------------------------------------------------------------------------------------

/// The first `n` units fit into `max` characters, and one more would not.
pub open spec fn fits_just(units: Seq<Seq<char>>, max: int, n: int) -> bool {
    &&& 0 <= n <= units.len()
    &&& text::concat(units.take(n)).len() <= max
    &&& n < units.len() ==> text::concat(units.take(n + 1)).len() > max
}

proof fn lemma_starts_grow(units: Seq<Seq<char>>, i: int, j: int)
    requires
        0 <= i <= j <= units.len(),
    ensures
        text::concat(units.take(i)).len() <= text::concat(units.take(j)).len(),
        text::concat(units.take(j)).take(text::concat(units.take(i)).len() as int) == text::concat(
            units.take(i),
        ),
{
    let a = units.take(i);
    let b = units.subrange(i, j);
    assert(units.take(j) =~= a + b);
    text_laws::law_concatenation_adds(a, b, Seq::empty());
    assert((text::concat(a) + text::concat(b)).take(text::concat(a).len() as int) =~= text::concat(
        a,
    ));
}

proof fn lemma_run(s: Seq<char>, units: Seq<Seq<char>>, max: int, n: int)
    requires
        max >= 0,
        fits_just(units, max, n),
        text::concat(units) == s,
    ensures
        truncate::fitting(units, max) == n,
        truncate::fit(units, max) == text::concat(units.take(n)).len(),
        s.take(truncate::fit(units, max) as int) == text::concat(units.take(n)),
{
    truncate_laws::law_the_longest_run_is_kept(units, max);
    let m = truncate::fitting(units, max) as int;
    if m < n {
        lemma_starts_grow(units, m + 1, n);
    } else if n < m {
        lemma_starts_grow(units, n + 1, m);
    }
    lemma_starts_grow(units, n, units.len() as int);
    assert(units.take(units.len() as int) =~= units);
}

/// A text that is cut keeps as many whole lines as fit; where not one does, as many whole words; where
/// not one of those does, as many characters. What it keeps ends without white space unless it is cut
/// inside a word, and an ellipsis follows.
pub proof fn law_cuts_fall_between_lines_then_words(
    s: Seq<char>,
    max: nat,
    words: Seq<Seq<char>>,
    n: int,
    m: int,
)
    requires
        s.len() > max,
        text::concat(words) == s,
        fits_just(text::split_inclusive(s), max as int, n),
        fits_just(words, max as int, m),
    ensures
        ({
            let lines = text::concat(text::split_inclusive(s).take(n));
            let whole = text::concat(words.take(m));
            let r = truncate::cut(s, max, words);
            &&& lines.len() > 0 ==> r == text::trim_end(lines).push('…')
            &&& lines.len() == 0 && whole.len() > 0 ==> r == text::trim_end(whole).push('…')
            &&& lines.len() == 0 && whole.len() == 0 ==> r == s.take(max as int).push('…')
        }),
{
    text_laws::law_whole_lines_are_the_text(s);
    lemma_run(s, text::split_inclusive(s), max as int, n);
    lemma_run(s, words, max as int, m);
}

/// The bytes of the units are those of the units that are counted, one by one.
pub proof fn law_bytes_add_up(a: Seq<Seq<char>>, b: Seq<Seq<char>>, unit: Seq<char>)
    ensures
        truncate::total_bytes(Seq::<Seq<char>>::empty()) == 0,
        truncate::total_bytes(seq![unit]) == vstd::utf8::encode_utf8(unit).len(),
        truncate::total_bytes(a + b) == truncate::total_bytes(a) + truncate::total_bytes(b),
    decreases b.len(),
{
    assert(seq![unit].drop_last() =~= Seq::<Seq<char>>::empty());
    reveal_with_fuel(truncate::total_bytes, 2);
    if b.len() == 0 {
        assert(a + b =~= a);
    } else {
        law_bytes_add_up(a, b.drop_last(), unit);
        assert((a + b).drop_last() =~= a + b.drop_last());
    }
}

/// The bytes of the longest run are those of the units that fit, all of them and no other.
pub proof fn law_the_run_has_the_bytes_of_its_units(units: Seq<Seq<char>>, max: int, n: int)
    requires
        max >= 0,
        fits_just(units, max, n),
    ensures
        truncate::fitting_bytes(units, max) == truncate::total_bytes(units.take(n)),
{
    lemma_run(text::concat(units), units, max, n);
}

/// A text is shortened only where it is too long. Then its sentences are chosen if the first fits, and
/// it is cut if not.
pub proof fn law_only_long_texts_are_cut(s: Seq<char>, max: nat)
    ensures
        s.len() <= max ==> truncate::truncated(s, max) == s,
        s.len() > max && truncate::sentence_bounds(s).len() > 0 && text::trim_end(
            truncate::sentence_bounds(s)[0],
        ).len() > max ==> truncate::truncated(s, max) == truncate::cut(
            s,
            max,
            truncate::word_bounds(s),
        ),
        s.len() > max && truncate::sentence_bounds(s).len() > 0 && text::trim_end(
            truncate::sentence_bounds(s)[0],
        ).len() <= max ==> text::starts_with(
            truncate::truncated(s, max),
            text::trim_end(truncate::sentence_bounds(s)[0]),
        ),
{
    let sents = truncate::sentence_bounds(s);
    let scores = truncate::densities(sents);
    if s.len() > max && sents.len() > 0 && text::trim_end(sents[0]).len() <= max {
        truncate_laws::law_first_sentence_stays(sents, scores, max);
    }
}

/// Each sentence is weighed for itself.
pub proof fn law_each_sentence_is_weighed(sents: Seq<Seq<char>>, i: int)
    requires
        0 <= i < sents.len(),
    ensures
        truncate::densities(sents).len() == sents.len(),
        truncate::densities(sents)[i] == truncate::density_of(sents[i]),
{
}

} // verus!
