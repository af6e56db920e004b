//! What holds of every way to set up and to uninstall.
use crate::setup::path;
use crate::setup::ports;
use crate::setup::profile;
use crate::setup::profile::Syntax;
use crate::setup::registry;
use crate::setup::report::{Mark, Platform};
use crate::setup::run;
use crate::setup::run::{ActionView, Daemon, RunView};
use crate::setup::uninstall;
use crate::setup::uninstall::UninstallView;
use crate::text;
use vstd::prelude::*;

verus! {

// ---------------------------------------------------------------------------------------------
// A run of setup
// ---------------------------------------------------------------------------------------------

/// A run after a list of events.
pub open spec fn run_after(r: RunView, es: Seq<run::EventView>) -> RunView
    decreases es.len(),
{
    if es.len() == 0 {
        r
    } else {
        run::after(run_after(r, es.drop_last()), es.last())
    }
}

/// The port that an action wires, where it wires one.
pub open spec fn wires(a: ActionView) -> Option<u16> {
    match a {
        ActionView::WriteProfile { proxy, .. } => ports::wired_port(proxy),
        ActionView::SetUserEnv { proxy, .. } => ports::wired_port(proxy),
        ActionView::EnableAutostart { port } => Some(port),
        ActionView::SpawnDaemon { port } => Some(port),
        _ => None,
    }
}

/// The port is settled once: no event changes it after the search.
pub proof fn law_port_is_settled_once(r: RunView, es: Seq<run::EventView>)
    requires
        r.stage != run::Stage::Port,
    ensures
        run_after(r, es).port == r.port,
        run_after(r, es).stage != run::Stage::Port,
        run_after(r, es).running == r.running,
        run_after(r, es).platform == r.platform,
    decreases es.len(),
{
    if es.len() > 0 {
        law_port_is_settled_once(r, es.drop_last());
    }
}

/// The environment, the entry at login and the interceptor agree: whatever a run wires, it wires to
/// the one port that it settled on.
pub proof fn law_everything_is_wired_to_one_port(r: RunView, es: Seq<run::EventView>)
    requires
        r.stage != run::Stage::Port,
    ensures
        wires(run::wanted(run_after(r, es))) is Some ==> wires(run::wanted(run_after(r, es)))
            == Some(r.port),
{
    law_port_is_settled_once(r, es);
    law_proxy_address_is_read_back(r.port);
}

/// A run whose next step can fail without ending it.
pub open spec fn may_fail(stage: run::Stage) -> bool {
    stage == run::Stage::Env || stage == run::Stage::Legacy || stage == run::Stage::Autostart
        || stage == run::Stage::Stop || stage == run::Stage::Spawn
}

/// A step of setup that fails becomes a warning, and the rest proceeds.
pub proof fn law_a_failed_step_warns_and_the_rest_proceeds(r: RunView, why: Seq<char>)
    requires
        may_fail(r.stage),
    ensures
        ({
            let next = run::after(r, run::EventView::Failed(why));
            &&& next.stage != r.stage
            &&& next.port == r.port
            &&& next.rows.len() > r.rows.len()
            &&& next.rows.take(r.rows.len() as int) == r.rows
            &&& next.rows[r.rows.len() as int].mark == Mark::Warn
        }),
{
    let next = run::after(r, run::EventView::Failed(why));
    assert(next.rows.take(r.rows.len() as int) =~= r.rows);
}

/// Setting up again does not disturb a live interceptor: where the user asks for no port, its port is
/// kept, and it is neither stopped nor started, nor is a port searched for.
pub proof fn law_setting_up_again_keeps_the_interceptor(
    platform: Platform,
    daemon: Daemon,
    configured: Option<u16>,
    es: Seq<run::EventView>,
)
    ensures
        ({
            let r = run_after(run::started(platform, None, Some(daemon), configured), es);
            &&& r.port == daemon.port
            &&& r.stage != run::Stage::Port
            &&& r.stage != run::Stage::Stop
            &&& r.stage != run::Stage::Spawn
        }),
    decreases es.len(),
{
    let start = run::started(platform, None, Some(daemon), configured);
    law_port_is_settled_once(start, es);
    if es.len() > 0 {
        law_setting_up_again_keeps_the_interceptor(platform, daemon, configured, es.drop_last());
        law_port_is_settled_once(start, es.drop_last());
    }
}

// ---------------------------------------------------------------------------------------------
// An uninstallation
// ---------------------------------------------------------------------------------------------

/// An uninstallation after a list of events.
pub open spec fn uninstall_after(u: UninstallView, es: Seq<uninstall::EventView>) -> UninstallView
    decreases es.len(),
{
    if es.len() == 0 {
        u
    } else {
        uninstall::after(uninstall_after(u, es.drop_last()), es.last())
    }
}

/// The ledger is removed only where that was asked for, and the program's own file, and the `PATH`
/// entry that leads to it, are left alone where that was asked for.
pub proof fn law_uninstall_spares_what_it_is_told_to(
    platform: Platform,
    purge: bool,
    keep_binary: bool,
    es: Seq<uninstall::EventView>,
)
    ensures
        ({
            let u = uninstall_after(uninstall::started(platform, purge, keep_binary), es);
            &&& u.purge == purge && u.keep_binary == keep_binary && u.platform == platform
            &&& u.wanted == uninstall::Action::RemoveLedger ==> purge
            &&& u.wanted == uninstall::Action::FindBinary ==> !keep_binary
            &&& u.wanted == uninstall::Action::RemoveBinary ==> !keep_binary
            &&& u.wanted == uninstall::Action::CleanPath ==> !keep_binary
            &&& u.wanted == uninstall::Action::ScheduleRemoval ==> !keep_binary
        }),
    decreases es.len(),
{
    if es.len() > 0 {
        law_uninstall_spares_what_it_is_told_to(platform, purge, keep_binary, es.drop_last());
    }
}

// ---------------------------------------------------------------------------------------------
// The managed block
// ---------------------------------------------------------------------------------------------

pub open spec fn no_line_feed(s: Seq<char>) -> bool {
    !s.contains('\n')
}

/// A line that survives being written and read: it holds no line feed and no carriage return at its
/// end.
pub open spec fn is_tidy(line: Seq<char>) -> bool {
    no_line_feed(line) && (line.len() > 0 ==> line.last() != '\r')
}

pub open spec fn all_tidy(ls: Seq<Seq<char>>) -> bool {
    forall|i: int| 0 <= i < ls.len() ==> is_tidy(#[trigger] ls[i])
}

/// No line that stands outside the managed blocks of `s` ends with a carriage return of its own.
pub open spec fn is_tidy_profile(s: Seq<char>) -> bool {
    forall|i: int|
        0 <= i < profile::outside(text::lines(s)).0.len() ==> ends_plainly(
            #[trigger] profile::outside(text::lines(s)).0[i],
        )
}

pub open spec fn ends_plainly(line: Seq<char>) -> bool {
    line.len() > 0 ==> line.last() != '\r'
}

pub open spec fn is_marker(line: Seq<char>) -> bool {
    text::trim(line) == profile::BEGIN@ || text::trim(line) == profile::END@
}

pub open spec fn no_markers(ls: Seq<Seq<char>>) -> bool {
    forall|i: int| 0 <= i < ls.len() ==> !is_marker(#[trigger] ls[i])
}

/// Where no line is a marker, every line stays.
pub proof fn law_lines_without_markers_stay(ls: Seq<Seq<char>>)
    requires
        no_markers(ls),
    ensures
        profile::outside(ls) == (ls, false),
    decreases ls.len(),
{
    if ls.len() > 0 {
        let most = ls.drop_last();
        assert forall|i: int| 0 <= i < most.len() implies !is_marker(#[trigger] most[i]) by {
            assert(most[i] == ls[i]);
        }
        law_lines_without_markers_stay(most);
        assert(!is_marker(ls[ls.len() - 1]));
        assert(most.push(ls.last()) =~= ls);
    } else {
        assert(profile::outside(ls).0 =~= ls);
    }
}

/// No marker stays.
proof fn lemma_outside_has_no_markers(ls: Seq<Seq<char>>)
    ensures
        no_markers(profile::outside(ls).0),
    decreases ls.len(),
{
    if ls.len() > 0 {
        lemma_outside_has_no_markers(ls.drop_last());
    }
}

proof fn lemma_outside_add(a: Seq<Seq<char>>, b: Seq<Seq<char>>)
    requires
        !profile::outside(a).1,
    ensures
        profile::outside(a + b).0 == profile::outside(a).0 + profile::outside(b).0,
        profile::outside(a + b).1 == profile::outside(b).1,
    decreases b.len(),
{
    if b.len() == 0 {
        assert(a + b =~= a);
        assert(profile::outside(a).0 + profile::outside(b).0 =~= profile::outside(a).0);
    } else {
        lemma_outside_add(a, b.drop_last());
        assert((a + b).drop_last() =~= a + b.drop_last());
        let k = profile::outside(a).0;
        let m = profile::outside(b.drop_last()).0;
        assert((k + m).push(b.last()) =~= k + m.push(b.last()));
    }
}

/// The pieces of a text that ends with a line feed, or is empty, and of what follows it.
proof fn lemma_pieces_add(a: Seq<char>, b: Seq<char>)
    requires
        a.len() == 0 || a.last() == '\n',
    ensures
        text::split_inclusive(a + b) == text::split_inclusive(a) + text::split_inclusive(b),
    decreases b.len(),
{
    lemma_last_piece(a);
    if b.len() == 0 {
        assert(a + b =~= a);
        assert(text::split_inclusive(a) + text::split_inclusive(b) =~= text::split_inclusive(a));
    } else {
        lemma_pieces_add(a, b.drop_last());
        assert((a + b).drop_last() =~= a + b.drop_last());
        lemma_last_piece(b.drop_last());
        let pa = text::split_inclusive(a);
        let pb = text::split_inclusive(b.drop_last());
        let c = b.last();
        if pb.len() == 0 {
            assert(pa + pb =~= pa);
            assert(pa.push(seq![c]) =~= pa + pb.push(seq![c]));
        } else {
            assert((pa + pb).last() == pb.last());
            if pb.last().last() == '\n' {
                assert((pa + pb).push(seq![c]) =~= pa + pb.push(seq![c]));
            } else {
                assert((pa + pb).drop_last().push(pb.last().push(c)) =~= pa
                    + pb.drop_last().push(pb.last().push(c)));
            }
        }
    }
}

/// The last piece of a text ends as the text does.
proof fn lemma_last_piece(s: Seq<char>)
    ensures
        s.len() == 0 <==> text::split_inclusive(s).len() == 0,
        s.len() > 0 ==> text::split_inclusive(s).last().len() > 0,
        s.len() > 0 ==> text::split_inclusive(s).last().last() == s.last(),
    decreases s.len(),
{
    if s.len() > 0 {
        lemma_last_piece(s.drop_last());
    }
}

/// A line and its line feed are one piece.
proof fn lemma_one_piece(line: Seq<char>)
    requires
        no_line_feed(line),
    ensures
        text::split_inclusive(line.push('\n')) == seq![line.push('\n')],
        line.len() > 0 ==> text::split_inclusive(line) == seq![line],
    decreases line.len(),
{
    let whole = line.push('\n');
    assert(whole.drop_last() =~= line);
    if line.len() == 0 {
        assert(text::split_inclusive(line) =~= Seq::<Seq<char>>::empty());
        assert(text::split_inclusive(whole) =~= seq![line.push('\n')]) by {
            assert(line.push('\n') =~= seq!['\n']);
        }
    } else {
        let most = line.drop_last();
        assert(no_line_feed(most)) by {
            if most.contains('\n') {
                let i = choose|i: int| 0 <= i < most.len() && most[i] == '\n';
                assert(line[i] == '\n');
            }
        }
        lemma_one_piece(most);
        assert(line.contains(line[line.len() - 1]));
        assert(most.push(line.last()) =~= line);
        if most.len() == 0 {
            assert(text::split_inclusive(most) =~= Seq::<Seq<char>>::empty());
            assert(seq![line.last()] =~= line);
            assert(text::split_inclusive(line) =~= seq![line]);
        } else {
            assert(most.contains(most[most.len() - 1]));
            assert(text::split_inclusive(line) =~= seq![line]);
        }
        assert(text::split_inclusive(whole) =~= seq![whole]);
    }
}

proof fn lemma_unlines_end(ls: Seq<Seq<char>>)
    ensures
        profile::unlines(ls).len() == 0 || profile::unlines(ls).last() == '\n',
{
}

/// Lines that are written and read again come back as they were.
proof fn lemma_lines_of_unlines(ls: Seq<Seq<char>>)
    requires
        all_tidy(ls),
    ensures
        text::lines(profile::unlines(ls)) == ls,
    decreases ls.len(),
{
    if ls.len() == 0 {
        assert(text::split_inclusive(profile::unlines(ls)) =~= Seq::<Seq<char>>::empty());
        assert(text::lines(profile::unlines(ls)) =~= ls);
    } else {
        let most = ls.drop_last();
        assert forall|i: int| 0 <= i < most.len() implies is_tidy(#[trigger] most[i]) by {
            assert(most[i] == ls[i]);
        }
        lemma_lines_of_unlines(most);
        let last = ls.last();
        assert(is_tidy(ls[ls.len() - 1]));
        lemma_unlines_end(most);
        lemma_pieces_add(profile::unlines(most), last.push('\n'));
        lemma_one_piece(last);
        let whole = text::split_inclusive(profile::unlines(ls));
        assert(whole == text::split_inclusive(profile::unlines(most)) + seq![last.push('\n')]);
        assert(text::without_line_ending(last.push('\n')) =~= last);
        assert(text::lines(profile::unlines(ls)) =~= most.push(last));
        assert(most.push(last) =~= ls);
    }
}

/// Every line of a text is without line feeds.
proof fn lemma_pieces_have_no_inner_line_feed(s: Seq<char>, i: int)
    requires
        0 <= i < text::split_inclusive(s).len(),
    ensures
        text::split_inclusive(s)[i].len() > 0,
        no_line_feed(text::split_inclusive(s)[i].drop_last()),
        i < text::split_inclusive(s).len() - 1 ==> text::split_inclusive(s)[i].last() == '\n',
    decreases s.len(),
{
    if s.len() > 0 {
        let before = text::split_inclusive(s.drop_last());
        let now = text::split_inclusive(s);
        lemma_last_piece(s.drop_last());
        if i < before.len() {
            lemma_pieces_have_no_inner_line_feed(s.drop_last(), i);
        }
        if i == now.len() - 1 {
            if before.len() == 0 || before.last().last() == '\n' {
                assert(now[i] == seq![s.last()]);
                assert(now[i].drop_last() =~= Seq::<char>::empty());
            } else {
                let piece = before.last();
                assert(now[i] == piece.push(s.last()));
                assert(now[i].drop_last() =~= piece);
                assert(piece.drop_last().push(piece.last()) =~= piece);
                if piece.contains('\n') {
                    let j = choose|j: int| 0 <= j < piece.len() && piece[j] == '\n';
                    if j < piece.len() - 1 {
                        assert(piece.drop_last()[j] == '\n');
                    }
                }
            }
        }
    }
}

proof fn lemma_lines_have_no_line_feed(s: Seq<char>, i: int)
    requires
        0 <= i < text::lines(s).len(),
    ensures
        no_line_feed(text::lines(s)[i]),
{
    lemma_pieces_have_no_inner_line_feed(s, i);
    let piece = text::split_inclusive(s)[i];
    let line = text::lines(s)[i];
    assert(line == text::without_line_ending(piece));
    if line.contains('\n') {
        let j = choose|j: int| 0 <= j < line.len() && line[j] == '\n';
        if piece.last() == '\n' {
            assert(piece.drop_last()[j] == '\n');
        } else if j < piece.len() - 1 {
            assert(piece.drop_last()[j] == '\n');
        }
    }
}

proof fn lemma_outside_keeps_lines(ls: Seq<Seq<char>>, i: int)
    requires
        0 <= i < profile::outside(ls).0.len(),
    ensures
        ls.contains(profile::outside(ls).0[i]),
    decreases ls.len(),
{
    if ls.len() > 0 {
        let before = profile::outside(ls.drop_last()).0;
        if i < before.len() {
            lemma_outside_keeps_lines(ls.drop_last(), i);
            let line = before[i];
            let j = choose|j: int| 0 <= j < ls.drop_last().len() && ls.drop_last()[j] == line;
            assert(ls[j] == line);
        } else {
            assert(ls[ls.len() - 1] == profile::outside(ls).0[i]);
        }
    }
}

proof fn lemma_kept_lines_are_tidy(s: Seq<char>)
    requires
        is_tidy_profile(s),
    ensures
        all_tidy(profile::outside(text::lines(s)).0),
{
    let kept = profile::outside(text::lines(s)).0;
    assert forall|i: int| 0 <= i < kept.len() implies is_tidy(#[trigger] kept[i]) by {
        lemma_outside_keeps_lines(text::lines(s), i);
        let j = choose|j: int| 0 <= j < text::lines(s).len() && text::lines(s)[j] == kept[i];
        lemma_lines_have_no_line_feed(s, j);
        assert(ends_plainly(kept[i]));
    }
}

/// Removing the managed blocks once more changes nothing.
pub proof fn law_strip_is_idempotent(s: Seq<char>)
    requires
        is_tidy_profile(s),
    ensures
        profile::stripped(profile::stripped(s)) == profile::stripped(s),
{
    let kept = profile::outside(text::lines(s)).0;
    lemma_kept_lines_are_tidy(s);
    lemma_lines_of_unlines(kept);
    lemma_outside_has_no_markers(text::lines(s));
    law_lines_without_markers_stay(kept);
}

proof fn lemma_trim_plain(s: Seq<char>)
    requires
        s.len() > 0,
        !text::is_white_space(s[0]),
        !text::is_white_space(s.last()),
    ensures
        text::trim(s) == s,
{
}

/// The lines of the managed block.
pub open spec fn block_lines(proxy: Seq<char>, ca: Seq<char>, syntax: Syntax) -> Seq<Seq<char>> {
    match syntax {
        Syntax::Posix => seq![
            profile::BEGIN@,
            "export HTTPS_PROXY=\""@ + proxy + "\""@,
            "export HTTP_PROXY=\""@ + proxy + "\""@,
            "export NODE_EXTRA_CA_CERTS=\""@ + ca + "\""@,
            profile::END@,
        ],
        Syntax::PowerShell => seq![
            profile::BEGIN@,
            "$env:HTTPS_PROXY = \""@ + proxy + "\""@,
            "$env:HTTP_PROXY = \""@ + proxy + "\""@,
            "$env:NODE_EXTRA_CA_CERTS = \""@ + ca + "\""@,
            profile::END@,
        ],
    }
}

proof fn lemma_unlines_push(ls: Seq<Seq<char>>, l: Seq<char>)
    ensures
        profile::unlines(ls.push(l)) == profile::unlines(ls) + l.push('\n'),
{
    assert(ls.push(l).drop_last() =~= ls);
}

proof fn lemma_unlines_five(a: Seq<char>, b: Seq<char>, c: Seq<char>, d: Seq<char>, e: Seq<char>)
    ensures
        profile::unlines(seq![a, b, c, d, e]) == a.push('\n') + b.push('\n') + c.push('\n')
            + d.push('\n') + e.push('\n'),
{
    let none = Seq::<Seq<char>>::empty();
    let l1 = none.push(a);
    let l2 = l1.push(b);
    let l3 = l2.push(c);
    let l4 = l3.push(d);
    lemma_unlines_push(none, a);
    lemma_unlines_push(l1, b);
    lemma_unlines_push(l2, c);
    lemma_unlines_push(l3, d);
    lemma_unlines_push(l4, e);
    assert(profile::unlines(none) + a.push('\n') =~= a.push('\n'));
    assert(l4.push(e) =~= seq![a, b, c, d, e]);
}

proof fn lemma_block_is_its_lines(proxy: Seq<char>, ca: Seq<char>, syntax: Syntax)
    ensures
        profile::block_view(proxy, ca, syntax) == profile::unlines(block_lines(proxy, ca, syntax)),
{
    let ls = block_lines(proxy, ca, syntax);
    lemma_unlines_five(ls[0], ls[1], ls[2], ls[3], ls[4]);
    assert(ls =~= seq![ls[0], ls[1], ls[2], ls[3], ls[4]]);
    reveal_strlit("\n");
    reveal_strlit("\"");
    reveal_strlit("\"\n");
    match syntax {
        Syntax::Posix => {
            reveal_strlit("\"\nexport HTTP_PROXY=\"");
            reveal_strlit("\"\nexport NODE_EXTRA_CA_CERTS=\"");
            reveal_strlit("export HTTP_PROXY=\"");
            reveal_strlit("export NODE_EXTRA_CA_CERTS=\"");
            assert("\"\nexport HTTP_PROXY=\""@ =~= "\""@.push('\n') + "export HTTP_PROXY=\""@);
            assert("\"\nexport NODE_EXTRA_CA_CERTS=\""@ =~= "\""@.push('\n')
                + "export NODE_EXTRA_CA_CERTS=\""@);
        },
        Syntax::PowerShell => {
            reveal_strlit("\"\n$env:HTTP_PROXY = \"");
            reveal_strlit("\"\n$env:NODE_EXTRA_CA_CERTS = \"");
            reveal_strlit("$env:HTTP_PROXY = \"");
            reveal_strlit("$env:NODE_EXTRA_CA_CERTS = \"");
            assert("\"\n$env:HTTP_PROXY = \""@ =~= "\""@.push('\n') + "$env:HTTP_PROXY = \""@);
            assert("\"\n$env:NODE_EXTRA_CA_CERTS = \""@ =~= "\""@.push('\n')
                + "$env:NODE_EXTRA_CA_CERTS = \""@);
        },
    }
    assert("\"\n"@ =~= "\""@.push('\n'));
    assert("\n"@ =~= seq!['\n']);
    assert(profile::block_view(proxy, ca, syntax) =~= profile::unlines(ls));
}

proof fn lemma_no_line_feed_add(a: Seq<char>, b: Seq<char>)
    requires
        no_line_feed(a),
        no_line_feed(b),
    ensures
        no_line_feed(a + b),
{
    if (a + b).contains('\n') {
        let i = choose|i: int| 0 <= i < (a + b).len() && (a + b)[i] == '\n';
        if i < a.len() {
            assert(a[i] == '\n');
        } else {
            assert(b[i - a.len()] == '\n');
        }
    }
}

/// An assignment is a tidy line that is no marker.
proof fn lemma_assignment(head: Seq<char>, value: Seq<char>)
    requires
        head.len() > 0,
        head[0] == 'e' || head[0] == '$',
        no_line_feed(head),
        no_line_feed(value),
    ensures
        is_tidy(head + value + "\""@),
        !is_marker(head + value + "\""@),
{
    let line = head + value + "\""@;
    reveal_strlit("\"");
    reveal_strlit("# >>> llmtrim >>>");
    reveal_strlit("# <<< llmtrim <<<");
    lemma_no_line_feed_add(head, value);
    assert(no_line_feed("\""@));
    lemma_no_line_feed_add(head + value, "\""@);
    assert(line[0] == head[0]);
    assert(line.last() == '"');
    lemma_trim_plain(line);
    assert(profile::BEGIN@[0] == '#');
    assert(profile::END@[0] == '#');
}

proof fn lemma_block_lines(proxy: Seq<char>, ca: Seq<char>, syntax: Syntax)
    requires
        no_line_feed(proxy),
        no_line_feed(ca),
    ensures
        all_tidy(block_lines(proxy, ca, syntax)),
        profile::outside(block_lines(proxy, ca, syntax)).0.len() == 0,
        !profile::outside(block_lines(proxy, ca, syntax)).1,
{
    let ls = block_lines(proxy, ca, syntax);
    reveal_strlit("# >>> llmtrim >>>");
    reveal_strlit("# <<< llmtrim <<<");
    assert(profile::BEGIN@.len() == 17 && profile::END@.len() == 17);
    assert(profile::BEGIN@[2] == '>' && profile::END@[2] == '<');
    assert(no_line_feed(profile::BEGIN@) && no_line_feed(profile::END@));
    lemma_trim_plain(profile::BEGIN@);
    lemma_trim_plain(profile::END@);
    match syntax {
        Syntax::Posix => {
            reveal_strlit("export HTTPS_PROXY=\"");
            reveal_strlit("export HTTP_PROXY=\"");
            reveal_strlit("export NODE_EXTRA_CA_CERTS=\"");
            lemma_assignment("export HTTPS_PROXY=\""@, proxy);
            lemma_assignment("export HTTP_PROXY=\""@, proxy);
            lemma_assignment("export NODE_EXTRA_CA_CERTS=\""@, ca);
        },
        Syntax::PowerShell => {
            reveal_strlit("$env:HTTPS_PROXY = \"");
            reveal_strlit("$env:HTTP_PROXY = \"");
            reveal_strlit("$env:NODE_EXTRA_CA_CERTS = \"");
            lemma_assignment("$env:HTTPS_PROXY = \""@, proxy);
            lemma_assignment("$env:HTTP_PROXY = \""@, proxy);
            lemma_assignment("$env:NODE_EXTRA_CA_CERTS = \""@, ca);
        },
    }
    let l5 = ls;
    let l4 = l5.drop_last();
    let l3 = l4.drop_last();
    let l2 = l3.drop_last();
    let l1 = l2.drop_last();
    let l0 = l1.drop_last();
    assert(l0 =~= Seq::<Seq<char>>::empty());
    assert(profile::outside(l0) == (Seq::<Seq<char>>::empty(), false));
    assert(l1.last() == profile::BEGIN@);
    assert(profile::outside(l1) == (Seq::<Seq<char>>::empty(), true));
    assert(l2.last() == ls[1]);
    assert(profile::outside(l2) == (Seq::<Seq<char>>::empty(), true));
    assert(l3.last() == ls[2]);
    assert(profile::outside(l3) == (Seq::<Seq<char>>::empty(), true));
    assert(l4.last() == ls[3]);
    assert(profile::outside(l4) == (Seq::<Seq<char>>::empty(), true));
    assert(l5.last() == profile::END@);
    assert(profile::outside(l5) == (Seq::<Seq<char>>::empty(), false));
}

/// Uninstalling undoes setting up: removing the block from a profile that it was written to leaves
/// what removing it before would have left.
pub proof fn law_strip_reverses_the_block(
    existing: Seq<char>,
    proxy: Seq<char>,
    ca: Seq<char>,
    syntax: Syntax,
)
    requires
        is_tidy_profile(existing),
        no_line_feed(proxy),
        no_line_feed(ca),
    ensures
        profile::stripped(profile::with_block_view(existing, proxy, ca, syntax))
            == profile::stripped(existing),
        is_tidy_profile(profile::with_block_view(existing, proxy, ca, syntax)),
{
    let kept = profile::outside(text::lines(existing)).0;
    let block = block_lines(proxy, ca, syntax);
    lemma_kept_lines_are_tidy(existing);
    lemma_block_lines(proxy, ca, syntax);
    lemma_block_is_its_lines(proxy, ca, syntax);
    lemma_lines_of_unlines(kept);
    lemma_lines_of_unlines(block);
    let base = profile::unlines(kept);
    let tail = profile::unlines(block);
    lemma_unlines_end(kept);
    lemma_pieces_add(base, tail);
    assert(text::lines(base + tail) =~= text::lines(base) + text::lines(tail));
    lemma_outside_has_no_markers(text::lines(existing));
    law_lines_without_markers_stay(kept);
    lemma_outside_add(kept, block);
    assert(kept + profile::outside(block).0 =~= kept);
    assert forall|i: int| 0 <= i < kept.len() implies ends_plainly(#[trigger] kept[i]) by {
        assert(is_tidy(kept[i]));
    }
}

/// Setting up again replaces the block: the profile comes out as if the last block had been the first.
pub proof fn law_block_is_replaced_not_stacked(
    existing: Seq<char>,
    proxy: Seq<char>,
    ca: Seq<char>,
    syntax: Syntax,
    proxy2: Seq<char>,
    ca2: Seq<char>,
    syntax2: Syntax,
)
    requires
        is_tidy_profile(existing),
        no_line_feed(proxy),
        no_line_feed(ca),
    ensures
        profile::with_block_view(
            profile::with_block_view(existing, proxy, ca, syntax),
            proxy2,
            ca2,
            syntax2,
        ) == profile::with_block_view(existing, proxy2, ca2, syntax2),
{
    law_strip_reverses_the_block(existing, proxy, ca, syntax);
}

// ---------------------------------------------------------------------------------------------
// The wired port
// ---------------------------------------------------------------------------------------------

/// The characters of the local address.
pub proof fn lemma_address()
    ensures
        "127.0.0.1:"@.len() == 10,
        "127.0.0.1:"@[0] == '1',
        "127.0.0.1:"@[1] == '2',
        "127.0.0.1:"@[2] == '7',
        "127.0.0.1:"@[3] == '.',
        "127.0.0.1:"@[9] == ':',
        !"127.0.0.1:"@.contains('\n'),
        !"127.0.0.1:"@.contains('"'),
        "http://127.0.0.1:"@ == "http://"@ + "127.0.0.1:"@,
        !"http://"@.contains('1'),
{
    reveal_strlit("127.0.0.1:");
    reveal_strlit("http://127.0.0.1:");
    reveal_strlit("http://");
    assert("http://127.0.0.1:"@ =~= "http://"@ + "127.0.0.1:"@);
}

/// The digits before anything else are the run of digits.
pub proof fn lemma_digit_run(digits: Seq<char>, rest: Seq<char>)
    requires
        text::all_digits(digits),
        rest.len() > 0 ==> !text::is_digit(rest[0]),
    ensures
        ports::digit_run(digits + rest) == digits.len(),
    decreases digits.len(),
{
    let whole = digits + rest;
    if digits.len() > 0 {
        let tail = digits.drop_first();
        assert forall|i: int| 0 <= i < tail.len() implies text::is_digit(#[trigger] tail[i]) by {
            assert(text::is_digit(digits[i + 1]));
        }
        lemma_digit_run(tail, rest);
        assert(whole.drop_first() =~= tail + rest);
        assert(text::is_digit(digits[0]));
    } else {
        assert(whole =~= rest);
    }
}

/// The first position at which a text occurs is the one that nothing precedes.
pub proof fn lemma_first_is(s: Seq<char>, pat: Seq<char>, from: int, at: int)
    requires
        0 <= from <= at,
        text::occurs_at(s, pat, at),
        forall|j: int| from <= j < at ==> !text::occurs_at(s, pat, j),
    ensures
        text::first_at(s, pat, from) == Some(at),
{
    text::lemma_first_at(s, pat, from);
}

/// The number behind the first address of a text is what is read from it.
proof fn lemma_wired_port(head: Seq<char>, port: u16, rest: Seq<char>)
    requires
        forall|j: int|
            0 <= j < head.len() ==> !text::occurs_at(
                head + "127.0.0.1:"@ + text::decimal(port as nat) + rest,
                "127.0.0.1:"@,
                j,
            ),
        rest.len() == 0 || rest[0] == '"',
    ensures
        ports::wired_port(head + "127.0.0.1:"@ + text::decimal(port as nat) + rest) == Some(port),
{
    let pat = "127.0.0.1:"@;
    let digits = text::decimal(port as nat);
    let s = head + pat + digits + rest;
    lemma_address();
    text::lemma_decimal_round_trip(port as nat);
    let at = head.len() as int;
    assert(s.subrange(at, at + pat.len()) =~= pat);
    lemma_first_is(s, pat, 0, at);
    let start = at + pat.len();
    let end = start + digits.len();
    assert(s.subrange(start, end) =~= digits);
    assert forall|j: int| start <= j <= end implies !text::occurs_at(s, pat, j) by {
        if text::occurs_at(s, pat, j) {
            let here = s.subrange(j, j + pat.len());
            assert(here[0] == s[j] && here[1] == s[j + 1] && here[2] == s[j + 2] && here[3] == s[j
                + 3]);
            if j + 3 < end {
                assert(s[j + 3] == digits[j + 3 - start]);
                assert(text::is_digit(digits[j + 3 - start]));
            } else {
                assert(end < s.len());
                assert(s[end] == rest[0]);
                assert(here[end - j] == s[end]);
            }
        }
    }
    text::lemma_first_at(s, pat, start);
    let after = ports::after_first(s, pat)->0;
    let stop = match text::first_at(s, pat, start) {
        Some(j) => j,
        None => s.len() as int,
    };
    assert(stop >= end);
    assert(after =~= s.subrange(start, stop));
    let tail = s.subrange(end, stop);
    assert(after =~= digits + tail);
    if tail.len() > 0 {
        assert(tail[0] == rest[0]);
    }
    lemma_digit_run(digits, tail);
    assert(after.take(digits.len() as int) =~= digits);
}

/// The port of the interceptor's address is read back from it.
pub proof fn law_proxy_address_is_read_back(port: u16)
    ensures
        ports::wired_port(ports::proxy_url_view(port)) == Some(port),
        no_line_feed(ports::proxy_url_view(port)),
{
    lemma_address();
    let pat = "127.0.0.1:"@;
    let head = "http://"@;
    let digits = text::decimal(port as nat);
    let none = Seq::<char>::empty();
    text::lemma_decimal_round_trip(port as nat);
    let s = head + pat + digits + none;
    assert(s =~= ports::proxy_url_view(port));
    assert forall|j: int| 0 <= j < head.len() implies !text::occurs_at(s, pat, j) by {
        if text::occurs_at(s, pat, j) {
            assert(s.subrange(j, j + pat.len())[0] == s[j]);
            assert(s[j] == head[j]);
            assert(head.contains(head[j]));
        }
    }
    lemma_wired_port(head, port, none);
    reveal_strlit("http://127.0.0.1:");
    if ports::proxy_url_view(port).contains('\n') {
        let i = choose|i: int|
            0 <= i < ports::proxy_url_view(port).len() && ports::proxy_url_view(port)[i] == '\n';
        let n = "http://127.0.0.1:"@.len();
        if i >= n {
            assert(text::is_digit(digits[i - n]));
        }
    }
}

/// A line and the line that lacks the white space at its end are trimmed to the same text.
proof fn lemma_trim_ignores_the_end(s: Seq<char>, c: char)
    requires
        text::is_white_space(c),
    ensures
        text::trim(s.push(c)) == text::trim(s),
    decreases s.len(),
{
    let longer = s.push(c);
    if s.len() == 0 {
        assert(longer.drop_first() =~= s);
        assert(text::trim_start(longer) =~= text::trim_start(s));
    } else if text::is_white_space(s[0]) {
        assert(longer.drop_first() =~= s.drop_first().push(c));
        lemma_trim_ignores_the_end(s.drop_first(), c);
    } else {
        assert(text::trim_start(longer) == longer);
        assert(text::trim_start(s) == s);
        assert(longer.drop_last() =~= s);
    }
}

/// Lines that are no markers, written and read again, are no markers.
proof fn lemma_no_marker_comes_up(ls: Seq<Seq<char>>)
    requires
        no_markers(ls),
        forall|i: int| 0 <= i < ls.len() ==> no_line_feed(#[trigger] ls[i]),
    ensures
        no_markers(text::lines(profile::unlines(ls))),
    decreases ls.len(),
{
    if ls.len() == 0 {
        assert(text::split_inclusive(profile::unlines(ls)) =~= Seq::<Seq<char>>::empty());
    } else {
        let most = ls.drop_last();
        let last = ls.last();
        assert forall|i: int| 0 <= i < most.len() implies !is_marker(#[trigger] most[i])
            && no_line_feed(most[i]) by {
            assert(most[i] == ls[i]);
        }
        lemma_no_marker_comes_up(most);
        assert(no_line_feed(ls[ls.len() - 1]) && !is_marker(ls[ls.len() - 1]));
        lemma_unlines_end(most);
        lemma_pieces_add(profile::unlines(most), last.push('\n'));
        lemma_one_piece(last);
        let read = text::without_line_ending(last.push('\n'));
        assert(last.push('\n').drop_last() =~= last);
        if last.len() > 0 && last.last() == '\r' {
            assert(last.drop_last().push('\r') =~= last);
            lemma_trim_ignores_the_end(last.drop_last(), '\r');
            assert(read =~= last.drop_last());
        } else {
            assert(read =~= last);
        }
        assert(!is_marker(read));
        let before = text::lines(profile::unlines(most));
        let now = text::lines(profile::unlines(ls));
        assert(now =~= before.push(read));
        assert forall|i: int| 0 <= i < now.len() implies !is_marker(#[trigger] now[i]) by {
            if i < before.len() {
                assert(now[i] == before[i]);
            }
        }
    }
}

/// Where no line is a marker, no line stands inside a block.
proof fn lemma_nothing_inside(ls: Seq<Seq<char>>)
    requires
        no_markers(ls),
    ensures
        profile::inside(ls).0.len() == 0,
        !profile::inside(ls).1,
    decreases ls.len(),
{
    if ls.len() > 0 {
        let most = ls.drop_last();
        assert forall|i: int| 0 <= i < most.len() implies !is_marker(#[trigger] most[i]) by {
            assert(most[i] == ls[i]);
        }
        lemma_nothing_inside(most);
        assert(!is_marker(ls[ls.len() - 1]));
    }
}

/// What stands inside the blocks of a list of lines still does when more lines follow.
proof fn lemma_inside_begins(a: Seq<Seq<char>>, b: Seq<Seq<char>>)
    ensures
        profile::inside(a).0.len() <= profile::inside(a + b).0.len(),
        profile::inside(a + b).0.take(profile::inside(a).0.len() as int) == profile::inside(a).0,
    decreases b.len(),
{
    let first = profile::inside(a).0;
    if b.len() == 0 {
        assert(a + b =~= a);
        assert(first.take(first.len() as int) =~= first);
    } else {
        lemma_inside_begins(a, b.drop_last());
        assert((a + b).drop_last() =~= a + b.drop_last());
        let before = profile::inside(a + b.drop_last()).0;
        assert(before.push(b.last()).take(first.len() as int) =~= before.take(first.len() as int));
    }
}

proof fn lemma_unlines_add(a: Seq<Seq<char>>, b: Seq<Seq<char>>)
    ensures
        profile::unlines(a + b) == profile::unlines(a) + profile::unlines(b),
    decreases b.len(),
{
    if b.len() == 0 {
        assert(a + b =~= a);
        assert(profile::unlines(a) + profile::unlines(b) =~= profile::unlines(a));
    } else {
        lemma_unlines_add(a, b.drop_last());
        assert((a + b).drop_last() =~= a + b.drop_last());
        assert(profile::unlines(a) + (profile::unlines(b.drop_last()) + b.last().push('\n'))
            =~= (profile::unlines(a) + profile::unlines(b.drop_last())) + b.last().push('\n'));
    }
}

/// The assignment of `HTTPS_PROXY` up to the address.
spec fn first_head(syntax: Syntax) -> Seq<char> {
    match syntax {
        Syntax::Posix => "export HTTPS_PROXY=\""@,
        Syntax::PowerShell => "$env:HTTPS_PROXY = \""@,
    }
}

proof fn lemma_first_head(syntax: Syntax)
    ensures
        first_head(syntax).len() > 0,
        first_head(syntax)[0] == 'e' || first_head(syntax)[0] == '$',
        no_line_feed(first_head(syntax)),
        !(first_head(syntax) + "http://"@).contains('1'),
{
    reveal_strlit("http://");
    match syntax {
        Syntax::Posix => {
            reveal_strlit("export HTTPS_PROXY=\"");
        },
        Syntax::PowerShell => {
            reveal_strlit("$env:HTTPS_PROXY = \"");
        },
    }
    let h = first_head(syntax) + "http://"@;
    if h.contains('1') {
        let i = choose|i: int| 0 <= i < h.len() && h[i] == '1';
        if i < first_head(syntax).len() {
            assert(first_head(syntax)[i] == '1');
        } else {
            assert("http://"@[i - first_head(syntax).len()] == '1');
        }
    }
}

/// The first line inside a managed block is the assignment of `HTTPS_PROXY`, whatever follows it.
proof fn lemma_first_line_inside(port: u16, ca: Seq<char>, syntax: Syntax)
    ensures
        ({
            let proxy = ports::proxy_url_view(port);
            let held = profile::inside(text::lines(profile::block_view(proxy, ca, syntax))).0;
            held.len() > 0 && held[0] == first_head(syntax) + proxy + "\""@
        }),
{
    let proxy = ports::proxy_url_view(port);
    let begin = profile::BEGIN@;
    let first = first_head(syntax) + proxy + "\""@;
    law_proxy_address_is_read_back(port);
    lemma_first_head(syntax);
    lemma_assignment(first_head(syntax), proxy);
    lemma_block_is_its_lines(proxy, ca, syntax);
    let ls = block_lines(proxy, ca, syntax);
    let tail = profile::unlines(seq![ls[2], ls[3], ls[4]]);
    assert(ls =~= seq![begin, first] + seq![ls[2], ls[3], ls[4]]);
    lemma_unlines_add(seq![begin, first], seq![ls[2], ls[3], ls[4]]);
    let front = seq![begin, first];
    reveal_strlit("# >>> llmtrim >>>");
    reveal_strlit("# <<< llmtrim <<<");
    assert(begin.len() == 17 && profile::END@.len() == 17);
    assert(begin[2] == '>' && profile::END@[2] == '<');
    assert(no_line_feed(begin));
    assert(is_tidy(begin));
    assert(all_tidy(front));
    lemma_lines_of_unlines(front);
    lemma_unlines_end(front);
    lemma_pieces_add(profile::unlines(front), tail);
    let all = text::lines(profile::block_view(proxy, ca, syntax));
    assert(all =~= front + text::lines(tail));
    lemma_trim_plain(begin);
    assert(front.drop_last().drop_last() =~= Seq::<Seq<char>>::empty());
    assert(front.drop_last().last() == begin);
    assert(profile::inside(Seq::<Seq<char>>::empty()) == (Seq::<Seq<char>>::empty(), false));
    assert(profile::inside(front.drop_last()) == (Seq::<Seq<char>>::empty(), true));
    assert(profile::inside(front).0 =~= seq![first]);
    lemma_inside_begins(front, text::lines(tail));
    let held = profile::inside(all).0;
    assert(held.take(1)[0] == held[0]);
}

proof fn lemma_inside_add(a: Seq<Seq<char>>, b: Seq<Seq<char>>)
    requires
        profile::inside(a).0.len() == 0,
        !profile::inside(a).1,
    ensures
        profile::inside(a + b) == profile::inside(b),
    decreases b.len(),
{
    if b.len() == 0 {
        assert(a + b =~= a);
        assert(profile::inside(a).0 =~= profile::inside(b).0);
    } else {
        lemma_inside_add(a, b.drop_last());
        assert((a + b).drop_last() =~= a + b.drop_last());
    }
}

/// The port is read from lines that begin with the assignment of `HTTPS_PROXY`.
proof fn lemma_port_of_first_line(port: u16, held: Seq<Seq<char>>, syntax: Syntax)
    requires
        held.len() > 0,
        held[0] == first_head(syntax) + ports::proxy_url_view(port) + "\""@,
    ensures
        ports::wired_port(profile::unlines(held)) == Some(port),
{
    let none = Seq::<Seq<char>>::empty();
    let first = held[0];
    assert(held =~= seq![first] + held.skip(1));
    lemma_unlines_add(seq![first], held.skip(1));
    lemma_unlines_push(none, first);
    assert(none.push(first) =~= seq![first]);
    assert(profile::unlines(none) + first.push('\n') =~= first.push('\n'));
    lemma_address();
    lemma_first_head(syntax);
    reveal_strlit("\"");
    let pat = "127.0.0.1:"@;
    let head = first_head(syntax) + "http://"@;
    let digits = text::decimal(port as nat);
    let more = profile::unlines(held.skip(1));
    let rest = "\""@.push('\n') + more;
    let s = head + pat + digits + rest;
    assert(first.push('\n') + more =~= s);
    assert forall|j: int| 0 <= j < head.len() implies !text::occurs_at(s, pat, j) by {
        if text::occurs_at(s, pat, j) {
            assert(s.subrange(j, j + pat.len())[0] == s[j]);
            assert(s[j] == head[j]);
            assert(head.contains(head[j]));
        }
    }
    lemma_wired_port(head, port, rest);
}

/// The port that was wired is read back from the profile, whatever else the profile holds, so that
/// setting up again settles on it.
pub proof fn law_wired_port_is_read_back(
    existing: Seq<char>,
    port: u16,
    ca: Seq<char>,
    syntax: Syntax,
)
    ensures
        ({
            let written = profile::with_block_view(
                existing,
                ports::proxy_url_view(port),
                ca,
                syntax,
            );
            &&& ports::wired_port(profile::managed(written)) == Some(port)
            &&& ports::pinned(None, None, ports::wired_port(profile::managed(written))) == Some(
                port,
            )
        }),
{
    let proxy = ports::proxy_url_view(port);
    let kept = profile::outside(text::lines(existing)).0;
    let base = profile::unlines(kept);
    let block = profile::block_view(proxy, ca, syntax);
    lemma_outside_has_no_markers(text::lines(existing));
    assert forall|i: int| 0 <= i < kept.len() implies no_line_feed(#[trigger] kept[i]) by {
        lemma_outside_keeps_lines(text::lines(existing), i);
        let j = choose|j: int| 0 <= j < text::lines(existing).len() && text::lines(existing)[j]
            == kept[i];
        lemma_lines_have_no_line_feed(existing, j);
    }
    lemma_no_marker_comes_up(kept);
    lemma_nothing_inside(text::lines(base));
    lemma_unlines_end(kept);
    lemma_pieces_add(base, block);
    assert(text::lines(base + block) =~= text::lines(base) + text::lines(block));
    lemma_inside_add(text::lines(base), text::lines(block));
    lemma_first_line_inside(port, ca, syntax);
    lemma_port_of_first_line(port, profile::inside(text::lines(block)).0, syntax);
}

/// The port is read from what follows the opening marker, where that begins with the assignment of
/// `HTTPS_PROXY`.
proof fn lemma_port_after_the_marker(port: u16, more: Seq<char>, syntax: Syntax)
    ensures
        ports::wired_port(
            profile::BEGIN@.push('\n') + (first_head(syntax) + "http://"@) + "127.0.0.1:"@
                + text::decimal(port as nat) + ("\""@ + more),
        ) == Some(port),
{
    lemma_address();
    lemma_first_head(syntax);
    reveal_strlit("\"");
    reveal_strlit("# >>> llmtrim >>>");
    let pat = "127.0.0.1:"@;
    let begin = profile::BEGIN@.push('\n');
    let plain = first_head(syntax) + "http://"@;
    let head = begin + plain;
    let rest = "\""@ + more;
    let s = head + pat + text::decimal(port as nat) + rest;
    assert(!begin.contains('1'));
    assert forall|j: int| 0 <= j < head.len() implies !text::occurs_at(s, pat, j) by {
        if text::occurs_at(s, pat, j) {
            assert(s.subrange(j, j + pat.len())[0] == s[j]);
            assert(s[j] == head[j]);
            if j < begin.len() {
                assert(begin.contains(begin[j]));
            } else {
                assert(head[j] == plain[j - begin.len()]);
                assert(plain.contains(plain[j - begin.len()]));
            }
        }
    }
    lemma_wired_port(head, port, rest);
}

proof fn lemma_regroup(
    begin: Seq<char>,
    head: Seq<char>,
    scheme: Seq<char>,
    host: Seq<char>,
    digits: Seq<char>,
    quote: Seq<char>,
    c: Seq<char>,
    d: Seq<char>,
    e: Seq<char>,
)
    ensures
        begin + (head + (scheme + host + digits) + quote).push('\n') + c + d + e == begin + (head
            + scheme) + host + digits + (quote + (seq!['\n'] + (c + d + e))),
{
    assert(begin + (head + (scheme + host + digits) + quote).push('\n') + c + d + e =~= begin + (head
        + scheme) + host + digits + (quote + (seq!['\n'] + (c + d + e))));
}

/// The port that a block wires is read back from the block itself, as text and as a profile.
pub proof fn law_port_is_read_back_from_the_block(port: u16, ca: Seq<char>, syntax: Syntax)
    ensures
        ({
            let block = profile::block_view(ports::proxy_url_view(port), ca, syntax);
            &&& ports::wired_port(block) == Some(port)
            &&& ports::wired_port(profile::managed(block)) == Some(port)
        }),
{
    let proxy = ports::proxy_url_view(port);
    let block = profile::block_view(proxy, ca, syntax);
    assert(ports::wired_port(profile::managed(block)) == Some(port)) by {
        lemma_first_line_inside(port, ca, syntax);
        lemma_port_of_first_line(port, profile::inside(text::lines(block)).0, syntax);
    }
    let ls = block_lines(proxy, ca, syntax);
    let later = ls[2].push('\n') + ls[3].push('\n') + ls[4].push('\n');
    let more = seq!['\n'] + later;
    lemma_block_is_its_lines(proxy, ca, syntax);
    lemma_unlines_five(ls[0], ls[1], ls[2], ls[3], ls[4]);
    assert(ls =~= seq![ls[0], ls[1], ls[2], ls[3], ls[4]]);
    lemma_address();
    lemma_regroup(
        profile::BEGIN@.push('\n'),
        first_head(syntax),
        "http://"@,
        "127.0.0.1:"@,
        text::decimal(port as nat),
        "\""@,
        ls[2].push('\n'),
        ls[3].push('\n'),
        ls[4].push('\n'),
    );
    lemma_port_after_the_marker(port, more, syntax);
}

// ---------------------------------------------------------------------------------------------
// The PATH
// ---------------------------------------------------------------------------------------------

proof fn lemma_pieces_are_plain(s: Seq<char>, sep: char)
    ensures
        forall|i: int| 0 <= i < text::split(s, sep).len() ==> !(#[trigger] text::split(s, sep)[i]).contains(sep),
    decreases s.len(),
{
    text::lemma_split_len(s, sep);
    if s.len() > 0 {
        lemma_pieces_are_plain(s.drop_last(), sep);
        text::lemma_split_len(s.drop_last(), sep);
        let before = text::split(s.drop_last(), sep);
        let now = text::split(s, sep);
        assert forall|i: int| 0 <= i < now.len() implies !(#[trigger] now[i]).contains(sep) by {
            if s.last() == sep {
                if i < before.len() {
                    assert(now[i] == before[i]);
                }
            } else if i < before.len() - 1 {
                assert(now[i] == before[i]);
            } else {
                let piece = before[before.len() - 1];
                assert(!piece.contains(sep));
                assert(now[i] == piece.push(s.last()));
                if now[i].contains(sep) {
                    let j = choose|j: int| 0 <= j < now[i].len() && now[i][j] == sep;
                    assert(piece[j] == sep);
                }
            }
        }
    }
}

proof fn lemma_split_of_join(parts: Seq<Seq<char>>)
    requires
        parts.len() > 0,
        forall|i: int| 0 <= i < parts.len() ==> !(#[trigger] parts[i]).contains(';'),
    ensures
        text::split(text::join(parts, ";"@), ';') == parts,
    decreases parts.len(),
{
    reveal_strlit(";");
    assert(";"@ =~= seq![';']);
    let last = parts.last();
    assert(!parts[parts.len() - 1].contains(';'));
    if parts.len() == 1 {
        lemma_split_plain(last);
        assert(parts =~= seq![last]);
    } else {
        let most = parts.drop_last();
        assert forall|i: int| 0 <= i < most.len() implies !(#[trigger] most[i]).contains(';') by {
            assert(most[i] == parts[i]);
        }
        lemma_split_of_join(most);
        let head = text::join(most, ";"@);
        text::lemma_split_more(head, last, ';');
        assert(head.push(';') + last =~= head + ";"@ + last);
        assert(most.push(last) =~= parts);
    }
}

proof fn lemma_split_plain(s: Seq<char>)
    requires
        !s.contains(';'),
    ensures
        text::split(s, ';') == seq![s],
    decreases s.len(),
{
    if s.len() > 0 {
        let most = s.drop_last();
        assert(s.contains(s[s.len() - 1]));
        if most.contains(';') {
            let i = choose|i: int| 0 <= i < most.len() && most[i] == ';';
            assert(s[i] == ';');
        }
        lemma_split_plain(most);
        assert(most.push(s.last()) =~= s);
        assert(text::split(s, ';') =~= seq![s]);
    } else {
        assert(s =~= Seq::<char>::empty());
    }
}

proof fn lemma_others(segs: Seq<Seq<char>>, dir: Seq<char>)
    requires
        forall|i: int| 0 <= i < segs.len() ==> !(#[trigger] segs[i]).contains(';'),
    ensures
        ({
            let o = path::other_segments(segs, dir);
            forall|i: int|
                0 <= i < o.len() ==> !(#[trigger] o[i]).contains(';') && path::normal(o[i])
                    != path::normal(dir)
        }),
    decreases segs.len(),
{
    if segs.len() > 0 {
        let most = segs.drop_last();
        assert forall|i: int| 0 <= i < most.len() implies !(#[trigger] most[i]).contains(';') by {
            assert(most[i] == segs[i]);
        }
        lemma_others(most, dir);
        assert(!segs[segs.len() - 1].contains(';'));
        let before = path::other_segments(most, dir);
        let o = path::other_segments(segs, dir);
        assert forall|i: int| 0 <= i < o.len() implies !(#[trigger] o[i]).contains(';')
            && path::normal(o[i]) != path::normal(dir) by {
            if i < before.len() {
                assert(o[i] == before[i]);
            } else {
                assert(o[i] == segs.last());
            }
        }
    }
}

proof fn lemma_others_stay(segs: Seq<Seq<char>>, dir: Seq<char>)
    requires
        forall|i: int|
            0 <= i < segs.len() ==> path::normal(#[trigger] segs[i]) != path::normal(dir),
    ensures
        path::other_segments(segs, dir) == segs,
    decreases segs.len(),
{
    if segs.len() > 0 {
        let most = segs.drop_last();
        assert forall|i: int| 0 <= i < most.len() implies path::normal(#[trigger] most[i])
            != path::normal(dir) by {
            assert(most[i] == segs[i]);
        }
        lemma_others_stay(most, dir);
        assert(path::normal(segs[segs.len() - 1]) != path::normal(dir));
        assert(most.push(segs.last()) =~= segs);
    } else {
        assert(path::other_segments(segs, dir) =~= segs);
    }
}

/// Where anything is left of a `PATH`, it is split into exactly the entries that do not name the
/// directory, in their order.
pub proof fn law_other_entries_stay(whole: Seq<char>, dir: Seq<char>)
    requires
        path::other_segments(text::split(whole, ';'), dir).len() > 0,
    ensures
        text::split(path::path_without(whole, dir), ';') == path::other_segments(
            text::split(whole, ';'),
            dir,
        ),
        forall|i: int|
            0 <= i < text::split(path::path_without(whole, dir), ';').len() ==> path::normal(
                #[trigger] text::split(path::path_without(whole, dir), ';')[i],
            ) != path::normal(dir),
{
    let segs = text::split(whole, ';');
    lemma_pieces_are_plain(whole, ';');
    lemma_others(segs, dir);
    lemma_split_of_join(path::other_segments(segs, dir));
}

/// Removing a directory from a `PATH` once more changes nothing.
pub proof fn law_removing_an_entry_is_idempotent(whole: Seq<char>, dir: Seq<char>)
    ensures
        path::path_without(path::path_without(whole, dir), dir) == path::path_without(whole, dir),
{
    let others = path::other_segments(text::split(whole, ';'), dir);
    if others.len() > 0 {
        law_other_entries_stay(whole, dir);
        lemma_others_stay(others, dir);
    } else {
        let none = Seq::<char>::empty();
        assert(path::path_without(whole, dir) =~= none);
        assert(text::split(none, ';') =~= seq![none]);
        let again = path::other_segments(seq![none], dir);
        assert(seq![none].drop_last() =~= Seq::<Seq<char>>::empty());
        assert(path::other_segments(Seq::<Seq<char>>::empty(), dir) =~= Seq::<Seq<char>>::empty());
        assert(again.len() == 0 || again =~= seq![none]);
        assert(text::join(again, ";"@) =~= none);
    }
}

// ---------------------------------------------------------------------------------------------
// Failures of uninstalling
// ---------------------------------------------------------------------------------------------

/// A step of uninstalling that fails becomes a warning, and the rest proceeds: nothing is silent. What
/// is told to running programs is not a step of its own.
pub proof fn law_a_failed_removal_warns_and_the_rest_proceeds(u: UninstallView, why: Seq<char>)
    requires
        u.wanted != uninstall::Action::Broadcast,
        u.wanted != uninstall::Action::Rebroadcast,
        u.wanted != uninstall::Action::Report,
    ensures
        ({
            let next = uninstall::after(u, uninstall::EventView::Failed(why));
            &&& next.wanted != u.wanted
            &&& next.rows.len() > u.rows.len()
            &&& next.rows.take(u.rows.len() as int) == u.rows
            &&& next.rows[u.rows.len() as int].mark == Mark::Warn
        }),
{
    let next = uninstall::after(u, uninstall::EventView::Failed(why));
    assert(next.rows.take(u.rows.len() as int) =~= u.rows);
}

/// How many lines are the marker.
pub open spec fn marks(ls: Seq<Seq<char>>, marker: Seq<char>) -> nat
    decreases ls.len(),
{
    if ls.len() == 0 {
        0
    } else {
        marks(ls.drop_last(), marker) + if text::trim(ls.last()) == marker {
            1nat
        } else {
            0nat
        }
    }
}

proof fn lemma_marks_add(a: Seq<Seq<char>>, b: Seq<Seq<char>>, marker: Seq<char>)
    ensures
        marks(a + b, marker) == marks(a, marker) + marks(b, marker),
    decreases b.len(),
{
    if b.len() == 0 {
        assert(a + b =~= a);
    } else {
        lemma_marks_add(a, b.drop_last(), marker);
        assert((a + b).drop_last() =~= a + b.drop_last());
    }
}

proof fn lemma_one_line(line: Seq<char>, marker: Seq<char>)
    ensures
        marks(seq![line], marker) == if text::trim(line) == marker {
            1nat
        } else {
            0nat
        },
{
    assert(seq![line].drop_last() =~= Seq::<Seq<char>>::empty());
    assert(marks(Seq::<Seq<char>>::empty(), marker) == 0);
}

proof fn lemma_no_marks(ls: Seq<Seq<char>>)
    requires
        no_markers(ls),
    ensures
        marks(ls, profile::BEGIN@) == 0,
        marks(ls, profile::END@) == 0,
    decreases ls.len(),
{
    if ls.len() > 0 {
        let most = ls.drop_last();
        assert forall|i: int| 0 <= i < most.len() implies !is_marker(#[trigger] most[i]) by {
            assert(most[i] == ls[i]);
        }
        lemma_no_marks(most);
        assert(!is_marker(ls[ls.len() - 1]));
    }
}

/// A block has one marker of each kind.
proof fn lemma_marks_of_the_block(proxy: Seq<char>, ca: Seq<char>, syntax: Syntax)
    requires
        no_line_feed(proxy),
        no_line_feed(ca),
    ensures
        marks(block_lines(proxy, ca, syntax), profile::BEGIN@) == 1,
        marks(block_lines(proxy, ca, syntax), profile::END@) == 1,
{
    let ls = block_lines(proxy, ca, syntax);
    reveal_strlit("# >>> llmtrim >>>");
    reveal_strlit("# <<< llmtrim <<<");
    assert(profile::BEGIN@.len() == 17 && profile::END@.len() == 17);
    assert(profile::BEGIN@[2] == '>' && profile::END@[2] == '<');
    lemma_trim_plain(profile::BEGIN@);
    lemma_trim_plain(profile::END@);
    lemma_inner_lines_are_no_markers(proxy, ca, syntax);
    let inner = seq![ls[1], ls[2], ls[3]];
    lemma_no_marks(inner);
    let begin = seq![ls[0]];
    let end = seq![ls[4]];
    lemma_one_line(ls[0], profile::BEGIN@);
    lemma_one_line(ls[0], profile::END@);
    lemma_one_line(ls[4], profile::BEGIN@);
    lemma_one_line(ls[4], profile::END@);
    lemma_marks_add(begin, inner, profile::BEGIN@);
    lemma_marks_add(begin, inner, profile::END@);
    lemma_marks_add(begin + inner, end, profile::BEGIN@);
    lemma_marks_add(begin + inner, end, profile::END@);
    assert(ls =~= begin + inner + end);
}

/// The assignments of a block are no markers.
proof fn lemma_inner_lines_are_no_markers(proxy: Seq<char>, ca: Seq<char>, syntax: Syntax)
    requires
        no_line_feed(proxy),
        no_line_feed(ca),
    ensures
        ({
            let ls = block_lines(proxy, ca, syntax);
            !is_marker(ls[1]) && !is_marker(ls[2]) && !is_marker(ls[3])
        }),
{
    match syntax {
        Syntax::Posix => {
            reveal_strlit("export HTTPS_PROXY=\"");
            reveal_strlit("export HTTP_PROXY=\"");
            reveal_strlit("export NODE_EXTRA_CA_CERTS=\"");
            lemma_assignment("export HTTPS_PROXY=\""@, proxy);
            lemma_assignment("export HTTP_PROXY=\""@, proxy);
            lemma_assignment("export NODE_EXTRA_CA_CERTS=\""@, ca);
        },
        Syntax::PowerShell => {
            reveal_strlit("$env:HTTPS_PROXY = \"");
            reveal_strlit("$env:HTTP_PROXY = \"");
            reveal_strlit("$env:NODE_EXTRA_CA_CERTS = \"");
            lemma_assignment("$env:HTTPS_PROXY = \""@, proxy);
            lemma_assignment("$env:HTTP_PROXY = \""@, proxy);
            lemma_assignment("$env:NODE_EXTRA_CA_CERTS = \""@, ca);
        },
    }
}

/// A written profile holds one managed block, whatever it held before: one line opens a block, and one
/// closes it.
pub proof fn law_a_written_profile_has_one_block(
    existing: Seq<char>,
    proxy: Seq<char>,
    ca: Seq<char>,
    syntax: Syntax,
)
    requires
        no_line_feed(proxy),
        no_line_feed(ca),
    ensures
        ({
            let ls = text::lines(profile::with_block_view(existing, proxy, ca, syntax));
            marks(ls, profile::BEGIN@) == 1 && marks(ls, profile::END@) == 1
        }),
{
    let kept = profile::outside(text::lines(existing)).0;
    let base = profile::unlines(kept);
    let block = profile::block_view(proxy, ca, syntax);
    let ls = block_lines(proxy, ca, syntax);
    lemma_outside_has_no_markers(text::lines(existing));
    assert forall|i: int| 0 <= i < kept.len() implies no_line_feed(#[trigger] kept[i]) by {
        lemma_outside_keeps_lines(text::lines(existing), i);
        let j = choose|j: int| 0 <= j < text::lines(existing).len() && text::lines(existing)[j]
            == kept[i];
        lemma_lines_have_no_line_feed(existing, j);
    }
    lemma_no_marker_comes_up(kept);
    lemma_no_marks(text::lines(base));
    lemma_unlines_end(kept);
    lemma_pieces_add(base, block);
    assert(text::lines(base + block) =~= text::lines(base) + text::lines(block));
    lemma_block_is_its_lines(proxy, ca, syntax);
    lemma_block_lines(proxy, ca, syntax);
    lemma_lines_of_unlines(ls);
    lemma_marks_of_the_block(proxy, ca, syntax);
    lemma_marks_add(text::lines(base), ls, profile::BEGIN@);
    lemma_marks_add(text::lines(base), ls, profile::END@);
}

// ---------------------------------------------------------------------------------------------
// What is wired is recognised
// ---------------------------------------------------------------------------------------------

/// A profile to which a managed block was written is one that holds a managed block.
pub proof fn law_written_block_is_found(
    existing: Seq<char>,
    proxy: Seq<char>,
    ca: Seq<char>,
    syntax: Syntax,
)
    ensures
        text::contains(profile::with_block_view(existing, proxy, ca, syntax), profile::BEGIN@),
{
    let kept = profile::stripped(existing);
    let block = profile::block_view(proxy, ca, syntax);
    let mark = profile::BEGIN@;
    let at = kept.len() as int;
    assert((kept + block).subrange(at, at + mark.len()) =~= mark);
    assert(text::occurs_at(kept + block, mark, at));
}

/// The values that are deleted from the user's environment are those that are set in it.
pub proof fn law_what_is_set_is_what_is_deleted(proxy: Seq<char>, ca: Seq<char>)
    ensures
        registry::managed_values(proxy, ca).map_values(|p: registry::EnvPair| p.0)
            == registry::managed_names(),
{
    assert(registry::managed_values(proxy, ca).map_values(|p: registry::EnvPair| p.0)
        =~= registry::managed_names());
}

/// The value of `HTTPS_PROXY` that is set in the user's environment points to the interceptor, and
/// the port is read back from it.
pub proof fn law_wired_environment_is_recognised(port: u16, ca: Seq<char>)
    ensures
        ({
            let first = registry::managed_values(ports::proxy_url_view(port), ca)[0];
            &&& first.0 == registry::HTTPS_PROXY@
            &&& registry::points_here(Some(first.1))
            &&& ports::wired_port(first.1) == Some(port)
        }),
{
    let url = ports::proxy_url_view(port);
    law_proxy_address_is_read_back(port);
    reveal_strlit("http://127.0.0.1:");
    reveal_strlit("127.0.0.1");
    assert(url.subrange(7, 16) =~= "127.0.0.1"@);
    assert(text::occurs_at(url, "127.0.0.1"@, 7));
}

} // verus!
