//! What holds of every shortened text.
use crate::provider::truncate;
use crate::provider::truncate::{Density, Rebuilt};
use crate::text;
use vstd::prelude::*;

verus! {

// ---------------------------------------------------------------------------------------------
// The ranking
// ---------------------------------------------------------------------------------------------

/// Where a sentence goes into a ranking.
spec fn place(order: Seq<int>, k: int, scores: Seq<Density>) -> int
    decreases order.len(),
{
    if order.len() > 0 && truncate::denser(scores[k], scores[order.last()]) {
        place(order.drop_last(), k, scores)
    } else {
        order.len() as int
    }
}

proof fn lemma_place(order: Seq<int>, k: int, scores: Seq<Density>)
    ensures
        ({
            let p = place(order, k, scores);
            &&& 0 <= p <= order.len()
            &&& truncate::ranked_in(order, k, scores) == order.take(p).push(k) + order.skip(p)
            &&& forall|i: int|
                p <= i < order.len() ==> truncate::denser(scores[k], scores[#[trigger] order[i]])
            &&& p > 0 ==> !truncate::denser(scores[k], scores[order[p - 1]])
        }),
    decreases order.len(),
{
    let p = place(order, k, scores);
    if order.len() > 0 && truncate::denser(scores[k], scores[order.last()]) {
        let most = order.drop_last();
        lemma_place(most, k, scores);
        assert(most.take(p) =~= order.take(p));
        assert((order.take(p).push(k) + most.skip(p)).push(order.last()) =~= order.take(p).push(k)
            + order.skip(p));
        assert forall|i: int| p <= i < order.len() implies truncate::denser(
            scores[k],
            scores[#[trigger] order[i]],
        ) by {
            if i < most.len() {
                assert(most[i] == order[i]);
            }
        }
        if p > 0 {
            assert(most[p - 1] == order[p - 1]);
        }
    } else {
        assert(order.take(p).push(k) + order.skip(p) =~= order.push(k));
    }
}

/// `a` comes before `b` in a ranking: it is denser, or as dense and earlier in the text.
pub open spec fn ranks_before(a: int, b: int, scores: Seq<Density>) -> bool {
    ||| truncate::denser(scores[a], scores[b])
    ||| !truncate::denser(scores[b], scores[a]) && a < b
}

/// No density of a list is denser than itself, and being at least as dense is transitive.
proof fn lemma_denser_order(a: Density, b: Density, c: Density)
    requires
        !truncate::denser(c, b),
        !truncate::denser(b, a),
    ensures
        !truncate::denser(c, a),
        truncate::denser(a, b) ==> truncate::denser(a, c),
        truncate::denser(b, c) ==> truncate::denser(a, c),
{
    let at = if a.total == 0 {
        1int
    } else {
        a.total as int
    };
    let bt = if b.total == 0 {
        1int
    } else {
        b.total as int
    };
    let ct = if c.total == 0 {
        1int
    } else {
        c.total as int
    };
    lemma_fractions(c.hits as int, ct, b.hits as int, bt, a.hits as int, at);
}

proof fn lemma_fractions(c: int, ct: int, b: int, bt: int, a: int, at: int)
    requires
        at > 0,
        bt > 0,
        ct > 0,
        a >= 0,
        b >= 0,
        c >= 0,
        c * bt <= b * ct,
        b * at <= a * bt,
    ensures
        c * at <= a * ct,
        a * bt > b * at ==> a * ct > c * at,
        b * ct > c * bt ==> a * ct > c * at,
{
    assert((c * bt) * at <= (b * ct) * at) by (nonlinear_arith)
        requires
            c * bt <= b * ct,
            at > 0,
    ;
    assert((b * at) * ct <= (a * bt) * ct) by (nonlinear_arith)
        requires
            b * at <= a * bt,
            ct > 0,
    ;
    assert((b * ct) * at == (b * at) * ct) by (nonlinear_arith);
    assert((c * bt) * at == (c * at) * bt) by (nonlinear_arith);
    assert((a * bt) * ct == (a * ct) * bt) by (nonlinear_arith);
    assert(c * at <= a * ct) by (nonlinear_arith)
        requires
            (c * at) * bt <= (a * ct) * bt,
            bt > 0,
    ;
    if a * bt > b * at {
        assert((b * at) * ct < (a * bt) * ct) by (nonlinear_arith)
            requires
                b * at < a * bt,
                ct > 0,
        ;
        assert(c * at < a * ct) by (nonlinear_arith)
            requires
                (c * at) * bt < (a * ct) * bt,
                bt > 0,
        ;
    }
    if b * ct > c * bt {
        assert((c * bt) * at < (b * ct) * at) by (nonlinear_arith)
            requires
                c * bt < b * ct,
                at > 0,
        ;
        assert(c * at < a * ct) by (nonlinear_arith)
            requires
                (c * at) * bt < (a * ct) * bt,
                bt > 0,
        ;
    }
}

/// A ranking of `n` sentences holds each sentence but the first exactly once, the densest first, and
/// in the order of the text where they are equally dense.
pub proof fn law_ranking_is_sorted(scores: Seq<Density>, n: int)
    ensures
        ({
            let r = truncate::ranking(scores, n);
            &&& n >= 1 ==> r.len() == n - 1
            &&& forall|i: int| 0 <= i < r.len() ==> 1 <= #[trigger] r[i] < n
            &&& forall|i: int, j: int|
                0 <= i < j < r.len() ==> ranks_before(#[trigger] r[i], #[trigger] r[j], scores)
            &&& forall|i: int, j: int|
                0 <= i < j < r.len() ==> #[trigger] r[i] != #[trigger] r[j]
        }),
    decreases n,
{
    if n > 1 {
        law_ranking_is_sorted(scores, n - 1);
        let order = truncate::ranking(scores, n - 1);
        let k = n - 1;
        let p = place(order, k, scores);
        lemma_place(order, k, scores);
        let r = truncate::ranking(scores, n);
        assert(r == order.take(p).push(k) + order.skip(p));
        assert forall|i: int, j: int| 0 <= i < j < r.len() implies ranks_before(
            #[trigger] r[i],
            #[trigger] r[j],
            scores,
        ) by {
            if j < p {
                assert(r[i] == order[i] && r[j] == order[j]);
            } else if j == p {
                assert(r[i] == order[i] && r[j] == k);
                if i < p - 1 {
                    assert(ranks_before(order[i], order[p - 1], scores));
                    lemma_denser_strict(scores[order[i]], scores[order[p - 1]]);
                    lemma_denser_order(
                        scores[order[i]],
                        scores[order[p - 1]],
                        scores[k],
                    );
                }
            } else if i < p {
                assert(r[i] == order[i] && r[j] == order[j - 1]);
            } else if i == p {
                assert(r[i] == k && r[j] == order[j - 1]);
            } else {
                assert(r[i] == order[i - 1] && r[j] == order[j - 1]);
            }
        }
        assert forall|i: int| 0 <= i < r.len() implies 1 <= #[trigger] r[i] < n by {
            if i < p {
                assert(r[i] == order[i]);
            } else if i > p {
                assert(r[i] == order[i - 1]);
            }
        }
        assert forall|i: int, j: int| 0 <= i < j < r.len() implies #[trigger] r[i]
            != #[trigger] r[j] by {
            if ranks_before(r[i], r[j], scores) && r[i] == r[j] {
                lemma_denser_strict(scores[r[i]], scores[r[j]]);
            }
        }
    }
}

/// Of two densities at most one is denser.
proof fn lemma_denser_strict(a: Density, b: Density)
    ensures
        !(truncate::denser(a, b) && truncate::denser(b, a)),
        !truncate::denser(a, a),
{
}

// ---------------------------------------------------------------------------------------------
// The budget
// ---------------------------------------------------------------------------------------------

/// What the kept ones of the first `n` sentences cost: their widths, and before each but the first a
/// marker, or the text's white space where that is wider and the sentence before is kept too.
pub open spec fn cost(sents: Seq<Seq<char>>, keep: Seq<bool>, n: nat) -> int
    decreases n,
{
    if n == 0 {
        0
    } else {
        let before = cost(sents, keep, (n - 1) as nat);
        if !keep[n - 1] {
            before
        } else if n == 1 {
            before + truncate::width(sents[0])
        } else {
            before + truncate::width(sents[n - 1]) + 3 + if keep[n - 2] {
                truncate::excess(sents[n - 2])
            } else {
                0
            }
        }
    }
}

proof fn lemma_trim_end_len(s: Seq<char>)
    ensures
        text::trim_end(s).len() <= s.len(),
    decreases s.len(),
{
    if s.len() > 0 && text::is_white_space(s.last()) {
        lemma_trim_end_len(s.drop_last());
    }
}

proof fn lemma_trim_end_add(a: Seq<char>, b: Seq<char>)
    ensures
        text::trim_end(a + b).len() <= a.len() + text::trim_end(b).len(),
        text::trim_end(b).len() > 0 ==> text::trim_end(a + b) == a + text::trim_end(b),
        text::trim_end(b).len() == 0 ==> text::trim_end(a + b) == text::trim_end(a),
    decreases b.len(),
{
    if b.len() == 0 {
        assert(a + b =~= a);
        lemma_trim_end_len(a);
    } else {
        assert((a + b).drop_last() =~= a + b.drop_last());
        if text::is_white_space(b.last()) {
            lemma_trim_end_add(a, b.drop_last());
        }
    }
}

/// Keeping one sentence more costs its price.
pub proof fn lemma_cost_update(sents: Seq<Seq<char>>, keep: Seq<bool>, i: int, n: nat)
    requires
        1 <= i < keep.len(),
        !keep[i],
        keep.len() == sents.len(),
        n <= keep.len(),
    ensures
        cost(sents, keep.update(i, true), n) == cost(sents, keep, n) + if i >= n {
            0
        } else if i + 1 < n {
            truncate::price(sents, keep, i)
        } else {
            truncate::width(sents[i]) + 3 + if keep[i - 1] {
                truncate::excess(sents[i - 1])
            } else {
                0
            }
        },
    decreases n,
{
    if n > 0 {
        lemma_cost_update(sents, keep, i, (n - 1) as nat);
    }
}

proof fn lemma_first_cost(sents: Seq<Seq<char>>, n: nat)
    requires
        sents.len() > 0,
        n <= sents.len(),
    ensures
        cost(sents, truncate::first_only(sents).keep, n) == if n == 0 {
            0
        } else {
            truncate::width(sents[0]) as int
        },
    decreases n,
{
    if n > 0 {
        lemma_first_cost(sents, (n - 1) as nat);
    }
}

/// The kept sentences cost what is used of the budget, and the budget is not exceeded.
pub proof fn lemma_picked_cost(sents: Seq<Seq<char>>, order: Seq<int>, max: nat)
    requires
        sents.len() > 0,
        truncate::width(sents[0]) <= max,
        forall|i: int| 0 <= i < order.len() ==> 1 <= #[trigger] order[i] < sents.len(),
        forall|i: int, j: int|
            0 <= i < j < order.len() ==> #[trigger] order[i] != #[trigger] order[j],
    ensures
        ({
            let p = truncate::picked(sents, order, max);
            &&& p.keep.len() == sents.len()
            &&& p.keep[0]
            &&& p.used <= max
            &&& p.used == cost(sents, p.keep, sents.len())
            &&& forall|j: int|
                0 < j < sents.len() && #[trigger] p.keep[j] ==> order.contains(j)
        }),
    decreases order.len(),
{
    if order.len() == 0 {
        lemma_first_cost(sents, sents.len());
    } else {
        let most = order.drop_last();
        assert forall|i: int| 0 <= i < most.len() implies 1 <= #[trigger] most[i] < sents.len() by {
            assert(most[i] == order[i]);
        }
        assert forall|i: int, j: int| 0 <= i < j < most.len() implies #[trigger] most[i]
            != #[trigger] most[j] by {
            assert(order[i] != order[j]);
        }
        lemma_picked_cost(sents, most, max);
        let before = truncate::picked(sents, most, max);
        let i = order.last();
        assert(1 <= order[order.len() - 1] < sents.len());
        if before.keep[i] {
            assert(most.contains(i));
            let j = choose|j: int| 0 <= j < most.len() && most[j] == i;
            assert(order[j] != order[order.len() - 1]);
        }
        lemma_cost_update(sents, before.keep, i, sents.len());
        let after = truncate::picked(sents, order, max);
        assert forall|j: int| 0 < j < sents.len() && #[trigger] after.keep[j] implies order.contains(
            j,
        ) by {
            if j == i {
                assert(order[order.len() - 1] == j);
            } else {
                assert(before.keep[j]);
                assert(most.contains(j));
                let k = choose|k: int| 0 <= k < most.len() && most[k] == j;
                assert(order[k] == j);
            }
        }
    }
}

/// What is put together is no longer than what the kept sentences cost.
proof fn lemma_rebuilt_len(sents: Seq<Seq<char>>, keep: Seq<bool>, n: nat)
    requires
        n <= sents.len(),
        keep.len() == sents.len(),
        sents.len() > 0,
        keep[0],
    ensures
        ({
            let b = truncate::rebuilt(sents, keep, n);
            let bound = cost(sents, keep, n);
            match b.run {
                Some(r) => {
                    &&& n > 0
                    &&& keep[n - 1]
                    &&& b.done.len() + r.len() <= bound + truncate::spaces(sents[n - 1])
                    &&& b.done.len() + text::trim_end(r).len() <= bound
                },
                None => {
                    &&& b.done.len() <= bound
                    &&& n > 0 ==> !keep[n - 1]
                },
            }
        }),
    decreases n,
{
    if n > 0 {
        lemma_rebuilt_len(sents, keep, (n - 1) as nat);
        let before = truncate::rebuilt(sents, keep, (n - 1) as nat);
        let u = sents[n - 1];
        lemma_trim_end_len(u);
        reveal_strlit(" … ");
        assert(truncate::ELISION@.len() == 3);
        if keep[n - 1] {
            match before.run {
                Some(r) => {
                    lemma_trim_end_add(r, u);
                },
                None => {},
            }
        }
    }
}

/// Selected sentences stay within the budget and one ellipsis.
pub proof fn law_selection_keeps_the_budget(sents: Seq<Seq<char>>, scores: Seq<Density>, max: nat)
    requires
        truncate::selected(sents, scores, max) is Some,
    ensures
        truncate::selected(sents, scores, max)->0.len() <= max + 1,
{
    let order = truncate::ranking(scores, sents.len() as int);
    law_ranking_is_sorted(scores, sents.len() as int);
    lemma_picked_cost(sents, order, max);
    let keep = truncate::picked(sents, order, max).keep;
    lemma_rebuilt_len(sents, keep, sents.len());
}

proof fn lemma_fit_bound(units: Seq<Seq<char>>, max: int)
    requires
        max >= 0,
    ensures
        truncate::fit(units, max) <= max,
    decreases units.len(),
{
    if units.len() == 0 || units[0].len() > max {
    } else {
        lemma_fit_bound(units.skip(1), max - units[0].len());
    }
}

proof fn lemma_concat_front(parts: Seq<Seq<char>>)
    requires
        parts.len() > 0,
    ensures
        text::concat(parts) == parts[0] + text::concat(parts.skip(1)),
    decreases parts.len(),
{
    if parts.len() == 1 {
        assert(parts.drop_last() =~= Seq::<Seq<char>>::empty());
        assert(parts.skip(1) =~= Seq::<Seq<char>>::empty());
        assert(text::concat(parts) =~= parts[0] + text::concat(parts.skip(1)));
    } else {
        lemma_concat_front(parts.drop_last());
        assert(parts.drop_last().skip(1) =~= parts.skip(1).drop_last());
        assert((parts[0] + text::concat(parts.skip(1).drop_last())) + parts.last() =~= parts[0] + (
        text::concat(parts.skip(1).drop_last()) + parts.last()));
    }
}

/// The run of whole units that is kept fits into `max` characters, and with one unit more it would
/// not.
pub proof fn law_the_longest_run_is_kept(units: Seq<Seq<char>>, max: int)
    requires
        max >= 0,
    ensures
        ({
            let n = truncate::fitting(units, max) as int;
            &&& n <= units.len()
            &&& text::concat(units.take(n)).len() == truncate::fit(units, max)
            &&& text::concat(units.take(n)).len() <= max
            &&& n < units.len() ==> text::concat(units.take(n + 1)).len() > max
        }),
    decreases units.len(),
{
    let n = truncate::fitting(units, max) as int;
    if units.len() == 0 {
        assert(units.take(n) =~= Seq::<Seq<char>>::empty());
    } else if units[0].len() > max {
        assert(units.take(0) =~= Seq::<Seq<char>>::empty());
        lemma_concat_front(units.take(1));
    } else {
        let rest = units.skip(1);
        law_the_longest_run_is_kept(rest, max - units[0].len());
        lemma_concat_front(units.take(n));
        assert(units.take(n).skip(1) =~= rest.take(n - 1));
        if n < units.len() {
            lemma_concat_front(units.take(n + 1));
            assert(units.take(n + 1).skip(1) =~= rest.take(n));
        }
    }
}

/// A text that is cut short has at most `max` characters before its ellipsis, and they are how the
/// text begins.
pub proof fn law_cutting_keeps_the_budget(s: Seq<char>, max: nat, words: Seq<Seq<char>>)
    requires
        s.len() > max,
    ensures
        truncate::cut(s, max, words).len() <= max + 1,
        truncate::cut(s, max, words).last() == '…',
        text::starts_with(s, truncate::cut(s, max, words).drop_last()),
{
    let lines = text::split_inclusive(s);
    lemma_fit_bound(lines, max as int);
    lemma_fit_bound(words, max as int);
    let by_line = truncate::fit(lines, max as int);
    let by_word = truncate::fit(words, max as int);
    let n = if by_line > 0 {
        by_line
    } else if by_word > 0 {
        by_word
    } else {
        max
    };
    let head = s.take(n as int);
    lemma_trim_end_prefix(head);
    let body = truncate::cut(s, max, words).drop_last();
    if by_line > 0 || by_word > 0 {
        assert(body =~= text::trim_end(head));
    } else {
        assert(body =~= head);
    }
    assert(s.subrange(0, body.len() as int) =~= body);
}

/// A text that fits stays as it is, and a longer one comes out with at most `max` characters and an
/// ellipsis.
pub proof fn law_truncation_keeps_the_budget(s: Seq<char>, max: nat)
    ensures
        s.len() <= max ==> truncate::truncated(s, max) == s,
        s.len() > max ==> truncate::truncated(s, max).len() <= max + 1,
{
    if s.len() > max {
        let sents = truncate::sentence_bounds(s);
        let scores = truncate::densities(sents);
        if truncate::selected(sents, scores, max) is Some {
            law_selection_keeps_the_budget(sents, scores, max);
        } else {
            law_cutting_keeps_the_budget(s, max, truncate::word_bounds(s));
        }
    }
}

proof fn lemma_trim_end_prefix(s: Seq<char>)
    ensures
        text::trim_end(s).len() <= s.len(),
        text::trim_end(s) == s.take(text::trim_end(s).len() as int),
    decreases s.len(),
{
    if s.len() > 0 && text::is_white_space(s.last()) {
        lemma_trim_end_prefix(s.drop_last());
        let n = text::trim_end(s).len() as int;
        assert(s.drop_last().take(n) =~= s.take(n));
    } else {
        assert(s.take(s.len() as int) =~= s);
    }
}

// ---------------------------------------------------------------------------------------------
// The first sentence
// ---------------------------------------------------------------------------------------------

proof fn lemma_starts(a: Seq<char>, more: Seq<char>, head: Seq<char>)
    requires
        text::starts_with(a, head),
    ensures
        text::starts_with(a + more, head),
{
    assert((a + more).subrange(0, head.len() as int) =~= a.subrange(0, head.len() as int));
}

/// A run that begins with the first sentence still begins with it once its end is trimmed.
proof fn lemma_trimmed_run_starts(first: Seq<char>, rest: Seq<char>)
    ensures
        text::starts_with(text::trim_end(first + rest), text::trim_end(first)),
{
    lemma_trim_end_add(first, rest);
    let head = text::trim_end(first);
    lemma_trim_end_prefix(first);
    let whole = text::trim_end(first + rest);
    if text::trim_end(rest).len() > 0 {
        assert(whole.subrange(0, head.len() as int) =~= head);
    } else {
        assert(whole.subrange(0, head.len() as int) =~= head);
    }
}

/// The parts of a shortened text begin with the first sentence.
spec fn begins_with_first(b: Rebuilt, first: Seq<char>) -> bool {
    let head = text::trim_end(first);
    match b.run {
        Some(r) => {
            ||| text::starts_with(b.done, head)
            ||| b.done.len() == 0 && exists|rest: Seq<char>| r == #[trigger] (first + rest)
        },
        None => text::starts_with(b.done, head),
    }
}

proof fn lemma_first_begins(sents: Seq<Seq<char>>, keep: Seq<bool>, n: nat)
    requires
        0 < n <= sents.len(),
        keep.len() == sents.len(),
        keep[0],
    ensures
        begins_with_first(truncate::rebuilt(sents, keep, n), sents[0]),
    decreases n,
{
    let first = sents[0];
    let b = truncate::rebuilt(sents, keep, n);
    if n == 1 {
        reveal_with_fuel(truncate::rebuilt, 2);
        assert(first =~= first + Seq::<char>::empty());
        assert(b.run == Some(first + Seq::<char>::empty()));
    } else {
        lemma_first_begins(sents, keep, (n - 1) as nat);
        let before = truncate::rebuilt(sents, keep, (n - 1) as nat);
        let u = sents[n - 1];
        let head = text::trim_end(first);
        lemma_closing_begins(before, first);
        if keep[n - 1] {
            match before.run {
                Some(r) => {
                    if !text::starts_with(before.done, head) {
                        let rest = choose|rest: Seq<char>| r == #[trigger] (first + rest);
                        assert(r + u =~= first + (rest + u));
                    }
                },
                None => {
                    lemma_starts(before.done, truncate::ELISION@, head);
                },
            }
        }
    }
}

proof fn lemma_closing_begins(b: Rebuilt, first: Seq<char>)
    requires
        begins_with_first(b, first),
    ensures
        text::starts_with(truncate::run_closed(b).done, text::trim_end(first)),
{
    let head = text::trim_end(first);
    match b.run {
        Some(r) => {
            if text::starts_with(b.done, head) {
                lemma_starts(b.done, text::trim_end(r), head);
            } else {
                let rest = choose|rest: Seq<char>| r == #[trigger] (first + rest);
                lemma_trimmed_run_starts(first, rest);
                assert(b.done + text::trim_end(r) =~= text::trim_end(r));
            }
        },
        None => {},
    }
}

/// Whatever is left out, the first sentence stays, and stays first.
pub proof fn law_first_sentence_stays(sents: Seq<Seq<char>>, scores: Seq<Density>, max: nat)
    requires
        truncate::selected(sents, scores, max) is Some,
    ensures
        text::starts_with(
            truncate::selected(sents, scores, max)->0,
            text::trim_end(sents[0]),
        ),
{
    let order = truncate::ranking(scores, sents.len() as int);
    law_ranking_is_sorted(scores, sents.len() as int);
    lemma_picked_cost(sents, order, max);
    let keep = truncate::picked(sents, order, max).keep;
    lemma_first_begins(sents, keep, sents.len());
    let b = truncate::rebuilt(sents, keep, sents.len());
    lemma_closing_begins(b, sents[0]);
    let body = truncate::run_closed(b).done;
    lemma_starts(body, seq!['…'], text::trim_end(sents[0]));
    assert(body + seq!['…'] =~= body.push('…'));
}

} // verus!
