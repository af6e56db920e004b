//! Which sentences a shortened text keeps, and how it puts them together.
use crate::provider::truncate;
use crate::provider::truncate::Density;
use crate::provider::truncate_laws;
use crate::text;
use vstd::prelude::*;

verus! {

// ---------------------------------------------------------------------------------------------
// The choice
// ---------------------------------------------------------------------------------------------

/// How many characters a sentence has without the white space at its end.
pub open spec fn bare(s: Seq<char>) -> int {
    text::trim_end(s).len() as int
}

/// How wide the gap after a sentence is where the next one follows it: its own white space, or a
/// marker's three characters where that is less.
pub open spec fn gap_after(s: Seq<char>) -> int {
    if s.len() - bare(s) > 3 {
        s.len() - bare(s)
    } else {
        3
    }
}

/// How many characters the kept ones of the first `n` sentences take up: each with the gap before it,
/// which is that of the text between neighbours, and a marker's anywhere else.
pub open spec fn span(sents: Seq<Seq<char>>, keep: Seq<bool>, n: nat) -> int
    decreases n,
{
    if n == 0 {
        0
    } else {
        span(sents, keep, (n - 1) as nat) + if !keep[n - 1] {
            0
        } else if n == 1 {
            bare(sents[0])
        } else if keep[n - 2] {
            bare(sents[n - 1]) + gap_after(sents[n - 2])
        } else {
            bare(sents[n - 1]) + 3
        }
    }
}

/// Sentence `a` has its turn before sentence `b`: more of its words look like code, or as many and it
/// stands first. Without words, none do.
pub open spec fn first_served(a: int, b: int, scores: Seq<Density>) -> bool {
    let at = if scores[a].total == 0 {
        1int
    } else {
        scores[a].total as int
    };
    let bt = if scores[b].total == 0 {
        1int
    } else {
        scores[b].total as int
    };
    ||| scores[a].hits * bt > scores[b].hits * at
    ||| scores[a].hits * bt == scores[b].hits * at && a < b
}

/// What is kept when the turn of sentence `j` comes: the first, and of the kept ones those that had
/// their turn before.
pub open spec fn kept_before(keep: Seq<bool>, j: int, scores: Seq<Density>) -> Seq<bool> {
    Seq::new(keep.len(), |i: int| i == 0 || (keep[i] && i != j && first_served(i, j, scores)))
}

/// Which sentences are kept.
pub open spec fn choice(sents: Seq<Seq<char>>, scores: Seq<Density>, max: nat) -> Seq<bool> {
    truncate::picked(sents, truncate::ranking(scores, sents.len() as int), max).keep
}

proof fn lemma_trim_end_len(s: Seq<char>)
    ensures
        text::trim_end(s).len() <= s.len(),
    decreases s.len(),
{
    if s.len() > 0 && text::is_white_space(s.last()) {
        lemma_trim_end_len(s.drop_last());
    }
}

proof fn lemma_span_is_cost(sents: Seq<Seq<char>>, keep: Seq<bool>, n: nat)
    ensures
        span(sents, keep, n) == truncate_laws::cost(sents, keep, n),
    decreases n,
{
    if n > 0 {
        lemma_span_is_cost(sents, keep, (n - 1) as nat);
        if n > 1 {
            lemma_trim_end_len(sents[n - 2]);
        }
    }
}

/// Keeping more takes up no less.
proof fn lemma_span_grows(sents: Seq<Seq<char>>, less: Seq<bool>, more: Seq<bool>, n: nat)
    requires
        forall|i: int| 0 <= i < n ==> (#[trigger] less[i] ==> more[i]),
    ensures
        0 <= span(sents, less, n) <= span(sents, more, n),
    decreases n,
{
    if n > 0 {
        lemma_span_grows(sents, less, more, (n - 1) as nat);
        assert(less[n - 1] ==> more[n - 1]);
        if n > 1 {
            assert(less[n - 2] ==> more[n - 2]);
        }
    }
}

/// A ranking leaves no sentence out but the first.
proof fn lemma_ranking_holds_all(scores: Seq<Density>, n: int, j: int)
    requires
        1 <= j < n,
    ensures
        truncate::ranking(scores, n).contains(j),
    decreases n,
{
    let before = truncate::ranking(scores, n - 1);
    if j < n - 1 {
        lemma_ranking_holds_all(scores, n - 1, j);
    }
    lemma_ranked_in_holds(before, n - 1, scores, j);
}

proof fn lemma_ranked_in_holds(order: Seq<int>, k: int, scores: Seq<Density>, j: int)
    requires
        j == k || order.contains(j),
    ensures
        truncate::ranked_in(order, k, scores).contains(j),
    decreases order.len(),
{
    let r = truncate::ranked_in(order, k, scores);
    if order.len() > 0 && truncate::denser(scores[k], scores[order.last()]) {
        if j != k && j == order.last() {
            assert(r[r.len() - 1] == j);
        } else {
            let most = order.drop_last();
            if j != k {
                let i = choose|i: int| 0 <= i < order.len() && order[i] == j;
                assert(most[i] == j);
            }
            lemma_ranked_in_holds(most, k, scores, j);
            let inner = truncate::ranked_in(most, k, scores);
            let i = choose|i: int| 0 <= i < inner.len() && inner[i] == j;
            assert(r[i] == j);
        }
    } else if j == k {
        assert(r[order.len() as int] == j);
    } else {
        let i = choose|i: int| 0 <= i < order.len() && order[i] == j;
        assert(r[i] == j);
    }
}

proof fn lemma_served_is_ranked(a: int, b: int, scores: Seq<Density>)
    ensures
        first_served(a, b, scores) == truncate_laws::ranks_before(a, b, scores),
        first_served(a, b, scores) && a != b ==> !first_served(b, a, scores),
{
}

spec fn good_order(sents: Seq<Seq<char>>, order: Seq<int>) -> bool {
    &&& forall|i: int| 0 <= i < order.len() ==> 1 <= #[trigger] order[i] < sents.len()
    &&& forall|i: int, j: int| 0 <= i < j < order.len() ==> #[trigger] order[i] != #[trigger] order[j]
}

proof fn lemma_good_start(sents: Seq<Seq<char>>, order: Seq<int>, p: int)
    requires
        good_order(sents, order),
        0 <= p <= order.len(),
    ensures
        good_order(sents, order.take(p)),
{
    let a = order.take(p);
    assert forall|i: int| 0 <= i < a.len() implies 1 <= #[trigger] a[i] < sents.len() by {
        assert(a[i] == order[i]);
    }
    assert forall|i: int, j: int| 0 <= i < j < a.len() implies #[trigger] a[i] != #[trigger] a[j] by {
        assert(order[i] != order[j]);
    }
}

/// What the first turns have settled, later turns leave as it is.
proof fn lemma_turns_are_final(sents: Seq<Seq<char>>, order: Seq<int>, max: nat, p: int)
    requires
        sents.len() > 0,
        bare(sents[0]) <= max,
        good_order(sents, order),
        0 <= p <= order.len(),
    ensures
        ({
            let a = truncate::picked(sents, order.take(p), max).keep;
            let f = truncate::picked(sents, order, max).keep;
            &&& a.len() == sents.len()
            &&& f.len() == sents.len()
            &&& forall|i: int|
                0 <= i < sents.len() ==> (#[trigger] a[i] == (i == 0 || (f[i] && order.take(
                    p,
                ).contains(i))))
        }),
    decreases order.len(),
{
    truncate_laws::lemma_picked_cost(sents, order, max);
    lemma_good_start(sents, order, p);
    truncate_laws::lemma_picked_cost(sents, order.take(p), max);
    let a = truncate::picked(sents, order.take(p), max).keep;
    let f = truncate::picked(sents, order, max).keep;
    if p == order.len() {
        assert(order.take(p) =~= order);
    } else {
        let most = order.drop_last();
        assert(most =~= order.take(order.len() - 1));
        lemma_good_start(sents, order, order.len() - 1);
        lemma_turns_are_final(sents, most, max, p);
        assert(most.take(p) =~= order.take(p));
        let m = truncate::picked(sents, most, max).keep;
        let l = order.last();
        assert forall|i: int| 0 <= i < sents.len() implies (#[trigger] a[i] == (i == 0 || (f[i]
            && order.take(p).contains(i)))) by {
            if i == l && order.take(p).contains(i) {
                let q = choose|q: int| 0 <= q < p && order.take(p)[q] == i;
                assert(order[q] != order[order.len() - 1]);
            }
            assert(i != l ==> f[i] == m[i]);
        }
    }
}

/// Every sentence gets its due: when its turn comes, those with more code in them first, it is kept
/// exactly where it fits with what is kept already. The first is kept in any case.
pub proof fn law_every_sentence_gets_its_turn(
    sents: Seq<Seq<char>>,
    scores: Seq<Density>,
    max: nat,
    j: int,
)
    requires
        1 <= j < sents.len(),
        bare(sents[0]) <= max,
    ensures
        ({
            let keep = choice(sents, scores, max);
            &&& keep.len() == sents.len()
            &&& keep[0]
            &&& keep[j] <==> span(
                sents,
                kept_before(keep, j, scores).update(j, true),
                sents.len(),
            ) <= max
        }),
{
    let n = sents.len();
    let order = truncate::ranking(scores, n as int);
    truncate_laws::law_ranking_is_sorted(scores, n as int);
    lemma_ranking_holds_all(scores, n as int, j);
    let p = choose|p: int| 0 <= p < order.len() && order[p] == j;
    let keep = choice(sents, scores, max);
    truncate_laws::lemma_picked_cost(sents, order, max);
    lemma_turns_are_final(sents, order, max, p);
    lemma_turns_are_final(sents, order, max, p + 1);
    lemma_turns_are_final(sents, order, max, order.len() as int);
    lemma_good_start(sents, order, p);
    let at = truncate::picked(sents, order.take(p), max);
    let after = truncate::picked(sents, order.take(p + 1), max);
    truncate_laws::lemma_picked_cost(sents, order.take(p), max);
    assert(order.take(p + 1).drop_last() =~= order.take(p));
    assert(order.take(p + 1).last() == j);
    assert(order.take(p + 1)[p] == j);
    assert(after.keep[j] == keep[j]);
    if at.keep[j] {
        assert(order.take(p).contains(j));
        let q = choose|q: int| 0 <= q < p && order.take(p)[q] == j;
        assert(order[q] != order[p]);
    }
    truncate_laws::lemma_cost_update(sents, at.keep, j, n);
    let mine = kept_before(keep, j, scores);
    assert forall|i: int| 0 <= i < n implies at.keep[i] == mine[i] by {
        if 0 < i && i != j {
            lemma_served_is_ranked(i, j, scores);
            lemma_served_is_ranked(j, i, scores);
            lemma_ranking_holds_all(scores, n as int, i);
            let q = choose|q: int| 0 <= q < order.len() && order[q] == i;
            if q < p {
                assert(order.take(p)[q] == i);
                assert(truncate_laws::ranks_before(order[q], order[p], scores));
            } else {
                assert(truncate_laws::ranks_before(order[p], order[q], scores));
                if order.take(p).contains(i) {
                    let r = choose|r: int| 0 <= r < p && order.take(p)[r] == i;
                    assert(order[r] != order[q]);
                }
            }
        }
    }
    assert(at.keep =~= mine);
    assert(keep[0]);
    lemma_span_is_cost(sents, at.keep, n);
    lemma_span_is_cost(sents, mine.update(j, true), n);
    assert(at.used == span(sents, mine, n));
    assert(after.keep[j] == (at.used + truncate::price(sents, at.keep, j) <= max));
    assert(span(sents, mine.update(j, true), n) == at.used + truncate::price(sents, at.keep, j));
}

/// The budget is filled: what is kept fits into it, and with any sentence more that is left out it
/// would not.
pub proof fn law_the_budget_is_filled(sents: Seq<Seq<char>>, scores: Seq<Density>, max: nat, j: int)
    requires
        1 <= j < sents.len(),
        bare(sents[0]) <= max,
    ensures
        ({
            let keep = choice(sents, scores, max);
            &&& span(sents, keep, sents.len()) <= max
            &&& !keep[j] ==> span(sents, keep.update(j, true), sents.len()) > max
        }),
{
    let n = sents.len();
    let order = truncate::ranking(scores, n as int);
    let keep = choice(sents, scores, max);
    truncate_laws::law_ranking_is_sorted(scores, n as int);
    truncate_laws::lemma_picked_cost(sents, order, max);
    lemma_span_is_cost(sents, keep, n);
    law_every_sentence_gets_its_turn(sents, scores, max, j);
    if !keep[j] {
        let less = kept_before(keep, j, scores).update(j, true);
        let more = keep.update(j, true);
        assert forall|i: int| 0 <= i < n implies (#[trigger] less[i] ==> more[i]) by {}
        lemma_span_grows(sents, less, more, n);
    }
}

/// A text that is too long is put together from the sentences that are chosen, where its first one
/// fits, and is cut short where it does not; a text that is not too long stays as it is.
pub proof fn law_long_texts_keep_their_sentences(s: Seq<char>, max: nat)
    ensures
        ({
            let sents = truncate::sentence_bounds(s);
            let short = truncate::truncated(s, max);
            &&& s.len() <= max ==> short == s
            &&& s.len() > max && sents.len() > 0 && bare(sents[0]) <= max ==> short
                == truncate::assembled(sents, choice(sents, truncate::densities(sents), max))
            &&& s.len() > max && (sents.len() == 0 || bare(sents[0]) > max) ==> short
                == truncate::cut(s, max, truncate::word_bounds(s))
        }),
{
}

// ---------------------------------------------------------------------------------------------
// Putting together
// ---------------------------------------------------------------------------------------------

/// The runs of neighbours that are kept, from the first sentence on: in order, apart from one another,
/// and nothing else is kept.
pub open spec fn are_runs(keep: Seq<bool>, runs: Seq<(int, int)>) -> bool {
    &&& runs.len() > 0
    &&& runs[0].0 == 0
    &&& forall|k: int| 0 <= k < runs.len() ==> 0 <= (#[trigger] runs[k]).0 < runs[k].1 <= keep.len()
    &&& forall|k: int, l: int|
        0 <= k < l < runs.len() ==> (#[trigger] runs[k]).1 < (#[trigger] runs[l]).0
    &&& forall|i: int| 0 <= i < keep.len() ==> (#[trigger] keep[i] <==> in_runs(runs, i))
}

pub open spec fn in_runs(runs: Seq<(int, int)>, i: int) -> bool {
    exists|k: int| 0 <= k < runs.len() && (#[trigger] runs[k]).0 <= i < runs[k].1
}

/// The text of a run: its sentences as they stand, without the white space at the end.
pub open spec fn run_text(sents: Seq<Seq<char>>, run: (int, int)) -> Seq<char> {
    text::trim_end(text::concat(sents.subrange(run.0, run.1)))
}

/// The texts of the runs.
pub open spec fn run_texts(sents: Seq<Seq<char>>, runs: Seq<(int, int)>) -> Seq<Seq<char>> {
    runs.map_values(|r: (int, int)| run_text(sents, r))
}

/// While the first `n` sentences are put together: the runs that are over, and the one that is not.
spec fn so_far(sents: Seq<Seq<char>>, keep: Seq<bool>, runs: Seq<(int, int)>, n: nat, k: int) -> bool {
    let b = truncate::rebuilt(sents, keep, n);
    let over = run_texts(sents, runs.take(k));
    &&& 0 <= k <= runs.len()
    &&& forall|j: int| 0 <= j < k ==> (#[trigger] runs[j]).1 <= n
    &&& k < runs.len() && runs[k].0 < n && n < runs[k].1 + 1 ==> b.run == Some(
        text::concat(sents.subrange(runs[k].0, n as int)),
    ) && b.done == if k == 0 {
        Seq::<char>::empty()
    } else {
        text::join(over, " … "@) + " … "@
    }
    &&& k == runs.len() || runs[k].0 >= n ==> b.run is None && b.done == text::join(over, " … "@)
    &&& k < runs.len() ==> n <= runs[k].1
}

proof fn lemma_concat_grows(sents: Seq<Seq<char>>, a: int, b: int)
    requires
        0 <= a <= b < sents.len(),
    ensures
        text::concat(sents.subrange(a, b + 1)) == text::concat(sents.subrange(a, b)) + sents[b],
{
    assert(sents.subrange(a, b + 1).drop_last() =~= sents.subrange(a, b));
}

proof fn lemma_join_push(parts: Seq<Seq<char>>, part: Seq<char>, sep: Seq<char>)
    ensures
        parts.len() > 0 ==> text::join(parts.push(part), sep) == text::join(parts, sep) + sep + part,
        parts.len() == 0 ==> text::join(parts.push(part), sep) == part,
{
    assert(parts.push(part).drop_last() =~= parts);
}

proof fn lemma_join_begins(parts: Seq<Seq<char>>, sep: Seq<char>)
    requires
        parts.len() > 0,
    ensures
        text::join(parts, sep).len() >= parts[0].len(),
    decreases parts.len(),
{
    if parts.len() > 1 {
        lemma_join_begins(parts.drop_last(), sep);
    }
}

/// Which run comes next after `n` sentences.
proof fn lemma_next_run(keep: Seq<bool>, runs: Seq<(int, int)>, n: int, k: int)
    requires
        are_runs(keep, runs),
        0 <= n < keep.len(),
        0 <= k <= runs.len(),
        forall|j: int| 0 <= j < k ==> (#[trigger] runs[j]).1 <= n,
        k < runs.len() ==> n <= runs[k].1,
    ensures
        keep[n] ==> k < runs.len() && ((runs[k].0 <= n && n < runs[k].1)),
        !keep[n] ==> k == runs.len() || n < runs[k].0 || n == runs[k].1,
{
    assert(keep[n] <==> in_runs(runs, n));
    if keep[n] {
        let l = choose|l: int| 0 <= l < runs.len() && (#[trigger] runs[l]).0 <= n < runs[l].1;
        if l < k {
            assert(runs[l].1 <= n);
        } else if l > k {
            assert(runs[k].1 < runs[l].0);
        }
    } else if k < runs.len() && runs[k].0 <= n && n < runs[k].1 {
        assert(in_runs(runs, n));
    }
}

proof fn lemma_put_together(
    sents: Seq<Seq<char>>,
    keep: Seq<bool>,
    runs: Seq<(int, int)>,
    n: nat,
) -> (k: int)
    requires
        keep.len() == sents.len(),
        are_runs(keep, runs),
        n <= sents.len(),
        run_text(sents, runs[0]).len() > 0,
    ensures
        so_far(sents, keep, runs, n, k),
    decreases n,
{
    reveal_strlit(" … ");
    assert(truncate::ELISION@ == " … "@);
    if n == 0 {
        assert(run_texts(sents, runs.take(0)) =~= Seq::<Seq<char>>::empty());
        0
    } else {
        let m = (n - 1) as nat;
        let k = lemma_put_together(sents, keep, runs, m);
        let before = truncate::rebuilt(sents, keep, m);
        lemma_next_run(keep, runs, m as int, k);
        let over = run_texts(sents, runs.take(k));
        if keep[m as int] {
            assert(0 <= runs[k].0 < runs[k].1 <= keep.len());
            if runs[k].0 < m {
                lemma_concat_grows(sents, runs[k].0, m as int);
            } else {
                lemma_concat_grows(sents, m as int, m as int);
                assert(sents.subrange(m as int, m as int) =~= Seq::<Seq<char>>::empty());
                assert(text::concat(Seq::<Seq<char>>::empty()) + sents[m as int] =~= sents[m as int]);
                if k > 0 {
                    lemma_join_begins(over, " … "@);
                    assert(over[0] == run_text(sents, runs[0]));
                } else {
                    assert(over =~= Seq::<Seq<char>>::empty());
                }
            }
            k
        } else if k < runs.len() && m == runs[k].1 {
            let text = run_text(sents, runs[k]);
            let next = run_texts(sents, runs.take(k + 1));
            assert(0 <= runs[k].0 < runs[k].1 <= keep.len());
            assert(next =~= over.push(text));
            lemma_join_push(over, text, " … "@);
            if k == 0 {
                assert(Seq::<char>::empty() + text =~= text);
            }
            if k + 1 < runs.len() {
                assert(runs[k].1 < runs[k + 1].0);
            }
            assert forall|j: int| 0 <= j < k + 1 implies (#[trigger] runs[j]).1 <= n by {}
            k + 1
        } else {
            k
        }
    }
}

/// A shortened text is its runs as they stand, a marker between them, and an ellipsis where the end is
/// left out.
pub proof fn law_runs_are_put_together(
    sents: Seq<Seq<char>>,
    keep: Seq<bool>,
    runs: Seq<(int, int)>,
)
    requires
        keep.len() == sents.len(),
        sents.len() > 0,
        are_runs(keep, runs),
        run_text(sents, runs[0]).len() > 0,
    ensures
        ({
            let body = text::join(run_texts(sents, runs), " … "@);
            truncate::assembled(sents, keep) == if keep.last() {
                body
            } else {
                body.push('…')
            }
        }),
{
    let n = sents.len();
    let k = lemma_put_together(sents, keep, runs, n);
    let b = truncate::rebuilt(sents, keep, n);
    let over = run_texts(sents, runs.take(k));
    if k < runs.len() {
        assert(0 <= runs[k].0 < runs[k].1 <= keep.len());
        if k + 1 < runs.len() {
            assert(runs[k].1 < runs[k + 1].0);
            assert(0 <= runs[k + 1].0 < runs[k + 1].1 <= keep.len());
        }
        let text = run_text(sents, runs[k]);
        assert(run_texts(sents, runs) =~= over.push(text));
        lemma_join_push(over, text, " … "@);
        assert(Seq::<char>::empty() + text =~= text);
    } else {
        assert(runs.take(k) =~= runs);
    }
}

} // verus!
