//! What holds of the pieces that texts are taken apart into and put together from.
use crate::text;
use vstd::prelude::*;

verus! {

// ---------------------------------------------------------------------------------------------
// Putting together
// ---------------------------------------------------------------------------------------------

/// One part stands for itself, and the parts of two lists come one after another.
pub proof fn law_concatenation_adds(a: Seq<Seq<char>>, b: Seq<Seq<char>>, part: Seq<char>)
    ensures
        text::concat(Seq::<Seq<char>>::empty()) == Seq::<char>::empty(),
        text::concat(seq![part]) == part,
        text::concat(a + b) == text::concat(a) + text::concat(b),
    decreases b.len(),
{
    assert(seq![part].drop_last() =~= Seq::<Seq<char>>::empty());
    assert(text::concat(Seq::<Seq<char>>::empty()) =~= Seq::<char>::empty());
    assert(text::concat(seq![part]) =~= part);
    if b.len() == 0 {
        assert(a + b =~= a);
        assert(text::concat(a) + text::concat(b) =~= text::concat(a));
    } else {
        law_concatenation_adds(a, b.drop_last(), part);
        assert((a + b).drop_last() =~= a + b.drop_last());
        assert(text::concat(a) + text::concat(b.drop_last()) + b.last() =~= text::concat(a) + (
        text::concat(b.drop_last()) + b.last()));
    }
}

/// One part stands for itself, and two lists are joined by one separator.
pub proof fn law_joining_adds(
    a: Seq<Seq<char>>,
    b: Seq<Seq<char>>,
    sep: Seq<char>,
    part: Seq<char>,
)
    requires
        a.len() > 0,
        b.len() > 0,
    ensures
        text::join(Seq::<Seq<char>>::empty(), sep) == Seq::<char>::empty(),
        text::join(seq![part], sep) == part,
        text::join(a + b, sep) == text::join(a, sep) + sep + text::join(b, sep),
    decreases b.len(),
{
    let whole = a + b;
    assert(whole.last() == b.last());
    if b.len() == 1 {
        assert(whole.drop_last() =~= a);
    } else {
        law_joining_adds(a, b.drop_last(), sep, part);
        assert(whole.drop_last() =~= a + b.drop_last());
        assert(text::join(a, sep) + sep + text::join(b.drop_last(), sep) + sep + b.last()
            =~= text::join(a, sep) + sep + (text::join(b.drop_last(), sep) + sep + b.last()));
    }
}

// ---------------------------------------------------------------------------------------------
// Taking apart
// ---------------------------------------------------------------------------------------------

/// The pieces between separators hold none, and joined by the separator they are the text.
pub proof fn law_pieces_join_to_the_text(s: Seq<char>, sep: char)
    ensures
        text::split(s, sep).len() > 0,
        text::join(text::split(s, sep), seq![sep]) == s,
        forall|i: int, j: int|
            0 <= i < text::split(s, sep).len() && 0 <= j < text::split(s, sep)[i].len()
                ==> #[trigger] text::split(s, sep)[i][j] != sep,
    decreases s.len(),
{
    let mark = seq![sep];
    let parts = text::split(s, sep);
    if s.len() == 0 {
        assert(parts =~= seq![Seq::<char>::empty()]);
        assert(text::join(parts, mark) =~= s);
    } else {
        let most = s.drop_last();
        law_pieces_join_to_the_text(most, sep);
        let before = text::split(most, sep);
        if s.last() == sep {
            assert(parts.drop_last() =~= before);
            assert(parts.last() =~= Seq::<char>::empty());
            assert(text::join(parts, mark) =~= most + mark);
            assert(most + mark =~= s);
        } else {
            let last = before.last().push(s.last());
            assert(parts.drop_last() =~= before.drop_last());
            assert(parts.last() == last);
            if before.len() == 1 {
                assert(most =~= before[0]);
                assert(text::join(parts, mark) =~= s);
            } else {
                let front = text::join(before.drop_last(), mark);
                assert(front + mark + last =~= (front + mark + before.last()).push(s.last()));
                assert(text::join(parts, mark) =~= most.push(s.last()));
                assert(most.push(s.last()) =~= s);
            }
            assert forall|i: int, j: int|
                0 <= i < parts.len() && 0 <= j < parts[i].len() implies #[trigger] parts[i][j]
                != sep by {
                if i < before.len() - 1 {
                    assert(parts[i] == before[i]);
                    assert(before[i][j] != sep);
                } else if j < before.last().len() {
                    assert(before[i][j] != sep);
                }
            }
        }
    }
}

/// A line ends with its line feed and holds no other; only the last may lack it.
pub open spec fn is_line(piece: Seq<char>, is_last: bool) -> bool {
    &&& piece.len() > 0
    &&& !is_last ==> piece.last() == '\n'
    &&& forall|j: int| 0 <= j < piece.len() - 1 ==> #[trigger] piece[j] != '\n'
}

/// The lines with their endings are lines, and one after another they are the text.
pub proof fn law_whole_lines_are_the_text(s: Seq<char>)
    ensures
        text::concat(text::split_inclusive(s)) == s,
        forall|i: int|
            0 <= i < text::split_inclusive(s).len() ==> is_line(
                #[trigger] text::split_inclusive(s)[i],
                i == text::split_inclusive(s).len() - 1,
            ),
    decreases s.len(),
{
    let parts = text::split_inclusive(s);
    if s.len() > 0 {
        let most = s.drop_last();
        law_whole_lines_are_the_text(most);
        let before = text::split_inclusive(most);
        if before.len() == 0 || before.last().last() == '\n' {
            assert(parts.drop_last() =~= before);
            assert(text::concat(parts) =~= most.push(s.last()));
            assert forall|i: int| 0 <= i < parts.len() implies is_line(
                #[trigger] parts[i],
                i == parts.len() - 1,
            ) by {
                if i < before.len() {
                    assert(is_line(before[i], i == before.len() - 1));
                }
            }
        } else {
            let last = before.last().push(s.last());
            assert(parts.drop_last() =~= before.drop_last());
            assert(parts.last() == last);
            assert(text::concat(before.drop_last()) + last =~= most.push(s.last()));
            assert forall|i: int| 0 <= i < parts.len() implies is_line(
                #[trigger] parts[i],
                i == parts.len() - 1,
            ) by {
                assert(is_line(before[i], i == before.len() - 1));
                if i == before.len() - 1 {
                    assert(before[i] == before.last());
                    assert forall|j: int| 0 <= j < last.len() - 1 implies #[trigger] last[j]
                        != '\n' by {
                        assert(last[j] == before[i][j]);
                        if j == before[i].len() - 1 {
                            assert(before[i].last() == before[i][j]);
                        }
                    }
                }
            }
        }
        assert(most.push(s.last()) =~= s);
    }
}

/// A line is read without its ending: a line feed, with the carriage return before it if there is
/// one. What does not end with a line feed is read as it is.
pub proof fn law_lines_are_read_without_their_ending(s: Seq<char>, i: int, line: Seq<char>)
    ensures
        text::lines(s).len() == text::split_inclusive(s).len(),
        0 <= i < text::lines(s).len() ==> ({
            let piece = text::split_inclusive(s)[i];
            &&& piece == line + seq!['\r', '\n'] ==> text::lines(s)[i] == line
            &&& piece == line.push('\n') && (line.len() == 0 || line.last() != '\r')
                ==> text::lines(s)[i] == line
            &&& piece == line && (line.len() == 0 || line.last() != '\n') ==> text::lines(s)[i]
                == line
        }),
{
    if 0 <= i < text::lines(s).len() {
        let piece = text::split_inclusive(s)[i];
        let two = line + seq!['\r', '\n'];
        assert(two.take(two.len() - 2) =~= line);
        assert(two[two.len() - 2] == '\r' && two.last() == '\n');
        let one = line.push('\n');
        assert(one.drop_last() =~= line);
        if line.len() > 0 {
            assert(one[one.len() - 2] == line.last());
        }
    }
}

/// Words stand apart: white space ends one, so that the words of a text with white space in it are
/// those before it and then those after it; a run of anything else is one word.
pub proof fn law_white_space_parts_words(a: Seq<char>, c: char, b: Seq<char>, run: Seq<char>)
    requires
        text::is_white_space(c),
    ensures
        text::words(a.push(c) + b) == text::words(a) + text::words(b),
        run.len() > 0 && (forall|i: int|
            0 <= i < run.len() ==> !text::is_white_space(#[trigger] run[i])) ==> text::words(run)
            == seq![run],
{
    lemma_words_add(a, c, b);
    if run.len() > 0 && (forall|i: int|
        0 <= i < run.len() ==> !text::is_white_space(#[trigger] run[i])) {
        lemma_one_word(run);
    }
}

proof fn lemma_words_add(a: Seq<char>, c: char, b: Seq<char>)
    requires
        text::is_white_space(c),
    ensures
        text::words(a.push(c) + b) == text::words(a) + text::words(b),
        b.len() > 0 && !text::is_white_space(b.last()) ==> text::words(b).len() > 0,
    decreases b.len(),
{
    let whole = a.push(c) + b;
    if b.len() == 0 {
        assert(whole =~= a.push(c));
        assert(whole.drop_last() =~= a);
        assert(text::words(a) + text::words(b) =~= text::words(a));
    } else {
        let most = b.drop_last();
        lemma_words_add(a, c, most);
        assert(whole.drop_last() =~= a.push(c) + most);
        assert(whole.last() == b.last());
        let front = text::words(a);
        let back = text::words(most);
        if !text::is_white_space(b.last()) {
            if b.len() >= 2 {
                assert(whole[whole.len() - 2] == b[b.len() - 2]);
                if !text::is_white_space(b[b.len() - 2]) {
                    assert(most.last() == b[b.len() - 2]);
                    assert((front + back).last() == back.last());
                    assert((front + back).drop_last().push(back.last().push(b.last())) =~= front
                        + back.drop_last().push(back.last().push(b.last())));
                } else {
                    assert((front + back).push(seq![b.last()]) =~= front + back.push(
                        seq![b.last()],
                    ));
                }
            } else {
                assert(whole[whole.len() - 2] == c);
                assert((front + back).push(seq![b.last()]) =~= front + back.push(seq![b.last()]));
            }
        }
    }
}

proof fn lemma_one_word(run: Seq<char>)
    requires
        run.len() > 0,
        forall|i: int| 0 <= i < run.len() ==> !text::is_white_space(#[trigger] run[i]),
    ensures
        text::words(run) == seq![run],
    decreases run.len(),
{
    let most = run.drop_last();
    assert(!text::is_white_space(run[run.len() - 1]));
    if run.len() >= 2 {
        assert(!text::is_white_space(run[run.len() - 2]));
        lemma_one_word(most);
        assert(most.push(run.last()) =~= run);
        assert(text::words(run) =~= seq![run]);
    } else {
        assert(most =~= Seq::<char>::empty());
        assert(text::words(most) =~= Seq::<Seq<char>>::empty());
        assert(seq![run.last()] =~= run);
        assert(text::words(run) =~= seq![run]);
    }
}

// ---------------------------------------------------------------------------------------------
// White space
// ---------------------------------------------------------------------------------------------

/// All the characters are white space.
pub open spec fn blank(s: Seq<char>) -> bool {
    forall|i: int| 0 <= i < s.len() ==> text::is_white_space(#[trigger] s[i])
}

/// Of the ASCII characters the space and those from the tab to the carriage return are white space;
/// beyond them, the next line, and the spaces and separators that do not show.
pub proof fn law_white_space_does_not_show(c: char)
    ensures
        c as int <= 127 ==> (text::is_white_space(c) <==> c == ' ' || '\t' <= c <= '\r'),
        c as int > 127 ==> (text::is_white_space(c) <==> c == '\u{85}' || c == '\u{a0}' || c
            == '\u{1680}' || '\u{2000}' <= c <= '\u{200a}' || c == '\u{2028}' || c == '\u{2029}'
            || c == '\u{202f}' || c == '\u{205f}' || c == '\u{3000}'),
{
}

/// Trimming the end takes white space from it and nothing else, as much as there is; so does trimming
/// the start, and trimming takes both.
pub proof fn law_trimming_takes_white_space(s: Seq<char>)
    ensures
        ({
            let e = text::trim_end(s);
            &&& e.len() <= s.len()
            &&& e == s.take(e.len() as int)
            &&& blank(s.skip(e.len() as int))
            &&& e.len() > 0 ==> !text::is_white_space(e.last())
        }),
        ({
            let b = text::trim_start(s);
            &&& b.len() <= s.len()
            &&& b == s.skip(s.len() - b.len())
            &&& blank(s.take(s.len() - b.len()))
            &&& b.len() > 0 ==> !text::is_white_space(b[0])
        }),
        text::trim(s) == text::trim_start(text::trim_end(s)),
{
    lemma_trim_end(s);
    lemma_trim_start(s);
    lemma_trim_commutes(s);
}

proof fn lemma_trim_end(s: Seq<char>)
    ensures
        ({
            let e = text::trim_end(s);
            &&& e.len() <= s.len()
            &&& e == s.take(e.len() as int)
            &&& blank(s.skip(e.len() as int))
            &&& e.len() > 0 ==> !text::is_white_space(e.last())
        }),
    decreases s.len(),
{
    let e = text::trim_end(s);
    if s.len() > 0 && text::is_white_space(s.last()) {
        let most = s.drop_last();
        lemma_trim_end(most);
        assert(most.take(e.len() as int) =~= s.take(e.len() as int));
        assert forall|i: int| 0 <= i < s.skip(e.len() as int).len() implies text::is_white_space(
            #[trigger] s.skip(e.len() as int)[i],
        ) by {
            if i < most.len() - e.len() {
                assert(s.skip(e.len() as int)[i] == most.skip(e.len() as int)[i]);
            }
        }
    } else {
        assert(s.take(s.len() as int) =~= s);
    }
}

proof fn lemma_trim_start(s: Seq<char>)
    ensures
        ({
            let b = text::trim_start(s);
            &&& b.len() <= s.len()
            &&& b == s.skip(s.len() - b.len())
            &&& blank(s.take(s.len() - b.len()))
            &&& b.len() > 0 ==> !text::is_white_space(b[0])
        }),
    decreases s.len(),
{
    let b = text::trim_start(s);
    if s.len() > 0 && text::is_white_space(s[0]) {
        let rest = s.drop_first();
        lemma_trim_start(rest);
        assert(rest.skip(rest.len() - b.len()) =~= s.skip(s.len() - b.len()));
        let front = s.take(s.len() - b.len());
        assert forall|i: int| 0 <= i < front.len() implies text::is_white_space(
            #[trigger] front[i],
        ) by {
            if i > 0 {
                assert(front[i] == rest.take(rest.len() - b.len())[i - 1]);
            }
        }
    } else {
        assert(s.skip(0) =~= s);
    }
}

proof fn lemma_trim_commutes(s: Seq<char>)
    ensures
        text::trim(s) == text::trim_start(text::trim_end(s)),
    decreases s.len(),
{
    if s.len() > 0 && text::is_white_space(s[0]) {
        let rest = s.drop_first();
        lemma_trim_commutes(rest);
        lemma_end_of_a_rest(s);
    } else if s.len() > 0 {
        lemma_trim_end(s);
        let e = text::trim_end(s);
        if e.len() == 0 {
            assert(s.skip(0)[0] == s[0]);
        }
        assert(e[0] == s[0]);
    }
}

proof fn lemma_end_of_a_rest(s: Seq<char>)
    requires
        s.len() > 0,
        text::is_white_space(s[0]),
    ensures
        text::trim_start(text::trim_end(s)) == text::trim_start(text::trim_end(s.drop_first())),
    decreases s.len(),
{
    let rest = s.drop_first();
    if s.len() == 1 {
        assert(s.drop_last() =~= Seq::<char>::empty());
        assert(rest =~= Seq::<char>::empty());
    } else if text::is_white_space(s.last()) {
        lemma_end_of_a_rest(s.drop_last());
        assert(rest.last() == s.last());
        assert(rest.drop_last() =~= s.drop_last().drop_first());
    } else {
        assert(rest.last() == s.last());
    }
}

// ---------------------------------------------------------------------------------------------
// Numbers
// ---------------------------------------------------------------------------------------------

/// A number is written in digits that read back as the number, without a leading zero.
pub proof fn law_numbers_are_written_shortest(n: nat)
    ensures
        text::all_digits(text::decimal(n)),
        text::decimal_value(text::decimal(n)) == n,
        text::decimal(n).len() > 0,
        n > 0 ==> text::decimal(n)[0] != '0',
        n == 0 ==> text::decimal(n) == seq!['0'],
    decreases n,
{
    text::lemma_decimal_round_trip(n);
    if n >= 10 {
        law_numbers_are_written_shortest(n / 10);
        assert(text::decimal(n)[0] == text::decimal(n / 10)[0]);
    }
}

/// Digits without a leading zero are how their number is written.
pub proof fn law_digits_are_written_one_way(s: Seq<char>)
    requires
        s.len() > 0,
        text::all_digits(s),
        s.len() == 1 || s[0] != '0',
    ensures
        text::decimal(text::decimal_value(s)) == s,
    decreases s.len(),
{
    let most = s.drop_last();
    let d = s.last() as int - 48;
    assert(text::is_digit(s[s.len() - 1]));
    if s.len() == 1 {
        assert(text::decimal_value(most) == 0);
        assert(text::decimal(text::decimal_value(s)) =~= s);
    } else {
        assert forall|i: int| 0 <= i < most.len() implies text::is_digit(#[trigger] most[i]) by {
            assert(text::is_digit(s[i]));
        }
        assert(most[0] == s[0]);
        law_digits_are_written_one_way(most);
        let n = text::decimal_value(most);
        law_numbers_are_written_shortest(n);
        assert(n > 0) by {
            if n == 0 {
                assert(text::decimal(0) == most);
                assert(most[0] == '0');
            }
        }
        let v = text::decimal_value(s);
        assert(v == 10 * n + d);
        assert(v / 10 == n && v % 10 == d);
        assert(text::decimal(v) =~= s);
    }
}

/// The digits of a number weigh ten times as much for each place further to the left.
pub proof fn law_digits_have_their_place(s: Seq<char>, d: nat)
    requires
        d < 10,
    ensures
        text::decimal_value(Seq::<char>::empty()) == 0,
        text::decimal_value(s.push((48 + d) as char)) == 10 * text::decimal_value(s) + d,
{
    assert(s.push((48 + d) as char).drop_last() =~= s);
}

} // verus!
