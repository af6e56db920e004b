//! What holds of the steps of setting up and of uninstalling.
use crate::setup::ports;
use crate::setup::report::{LineView, Mark, Platform};
use crate::setup::run;
use crate::setup::run::{ActionView, Daemon, EventView, RunView, Stage};
use crate::setup::uninstall;
use crate::setup::uninstall::UninstallView;
use crate::text;
use vstd::prelude::*;

verus! {

// ---------------------------------------------------------------------------------------------
// Setting up
// ---------------------------------------------------------------------------------------------

/// A run begins with the port that is pinned, or by looking for one from the default on.
pub proof fn law_a_run_begins_with_its_port(
    platform: Platform,
    requested: Option<u16>,
    running: Option<Daemon>,
    configured: Option<u16>,
)
    ensures
        ({
            let r = run::started(platform, requested, running, configured);
            &&& requested is Some ==> r.port == requested->0
            &&& requested is None && running is Some ==> r.port == running->0.port
            &&& requested is None && running is None && configured is Some ==> r.port
                == configured->0
            &&& requested is Some || running is Some || configured is Some ==> run::wanted(r)
                == ActionView::EnsureCa
            &&& requested is None && running is None && configured is None ==> run::wanted(r) == (
            ActionView::FindPort { start: ports::DEFAULT_PORT })
            &&& r.rows.len() == 0 && !r.manual_env && !r.daemon_ok
            &&& r.platform == platform && r.running == running
        }),
{
}

/// The port that was found and the CA that is there are the ones that everything is wired to.
pub proof fn law_the_environment_gets_port_and_ca(r: RunView, p: u16, ca: Seq<char>)
    requires
        r.stage == Stage::Port,
    ensures
        ({
            let found = run::after(r, EventView::Port(p));
            let ready = run::after(found, EventView::Ca(ca));
            &&& run::wanted(found) == ActionView::EnsureCa
            &&& found.port == p
            &&& r.platform == Platform::Windows ==> run::wanted(ready) == (ActionView::SetUserEnv {
                proxy: "http://127.0.0.1:"@ + text::decimal(p as nat),
                ca,
            })
            &&& r.platform != Platform::Windows ==> run::wanted(ready)
                == (ActionView::WriteProfile {
                proxy: "http://127.0.0.1:"@ + text::decimal(p as nat),
                ca,
            })
        }),
{
}

/// Each step asks for one thing: the port, the CA, the environment, the block that an earlier version
/// left, the word to running programs, the entry at login, the end of the old interceptor and the start
/// of the new one, and the report.
pub proof fn law_each_step_asks_for_one_thing(r: RunView)
    ensures
        run::wanted(r) is FindPort <==> r.stage == Stage::Port,
        run::wanted(r) is EnsureCa <==> r.stage == Stage::Ca,
        run::wanted(r) is SetUserEnv <==> r.stage == Stage::Env && r.platform == Platform::Windows,
        run::wanted(r) is WriteProfile <==> r.stage == Stage::Env && r.platform
            != Platform::Windows,
        run::wanted(r) is RemoveLegacyBlock <==> r.stage == Stage::Legacy,
        run::wanted(r) is Broadcast <==> r.stage == Stage::Broadcast,
        run::wanted(r) is EnableAutostart <==> r.stage == Stage::Autostart,
        run::wanted(r) is StopDaemon <==> r.stage == Stage::Stop,
        run::wanted(r) is SpawnDaemon <==> r.stage == Stage::Spawn,
        run::wanted(r) is Report <==> r.stage == Stage::Report,
        r.stage == Stage::Autostart ==> run::wanted(r) == (ActionView::EnableAutostart {
            port: r.port,
        }),
        r.stage == Stage::Spawn ==> run::wanted(r) == (ActionView::SpawnDaemon { port: r.port }),
{
}

/// A step that went well or was not needed.
pub open spec fn went_well(stage: Stage, platform: Platform, e: EventView) -> bool {
    match stage {
        Stage::Port => e is Port,
        Stage::Ca => e is Ca,
        Stage::Env => if platform == Platform::Windows {
            e is Done
        } else {
            e is Profile
        },
        Stage::Legacy => e is Profile,
        Stage::Broadcast => e is Done,
        Stage::Autostart => e is Done,
        Stage::Stop => e is Done,
        Stage::Spawn => e is Spawned,
        Stage::Report => false,
    }
}

/// A step that failed where the rest can proceed.
pub open spec fn went_wrong(stage: Stage, e: EventView) -> bool {
    e is Failed && (stage == Stage::Env || stage == Stage::Legacy || stage == Stage::Autostart
        || stage == Stage::Stop || stage == Stage::Spawn)
}

/// The step that follows.
pub open spec fn follows(r: RunView) -> Stage {
    match r.stage {
        Stage::Port => Stage::Ca,
        Stage::Ca => Stage::Env,
        Stage::Env => if r.platform == Platform::Windows {
            Stage::Legacy
        } else {
            Stage::Autostart
        },
        Stage::Legacy => Stage::Broadcast,
        Stage::Broadcast => Stage::Autostart,
        Stage::Autostart => if r.running is Some && r.running->0.port == r.port {
            Stage::Report
        } else {
            Stage::Stop
        },
        Stage::Stop => Stage::Spawn,
        Stage::Spawn => Stage::Report,
        Stage::Report => Stage::Report,
    }
}

/// No step is skipped and none is taken twice: whatever answers a step, well or not, leads to the next,
/// and what answers it not changes nothing. An interceptor that serves the port is the one reason not to
/// stop and start it.
pub proof fn law_setup_takes_every_step(r: RunView, e: EventView)
    ensures
        went_well(r.stage, r.platform, e) || went_wrong(r.stage, e) ==> run::after(r, e).stage
            == follows(r),
        !went_well(r.stage, r.platform, e) && !went_wrong(r.stage, e) ==> run::after(r, e) == r,
{
}

/// The run says that the interceptor runs exactly where it was started, or where it serves the port
/// already.
pub proof fn law_done_is_said_where_it_runs(r: RunView, e: EventView)
    requires
        !r.daemon_ok,
    ensures
        run::after(r, e).daemon_ok <==> (r.stage == Stage::Spawn && e is Spawned) || (r.stage
            == Stage::Autostart && (e is Done || e is Failed) && r.running is Some
            && r.running->0.port == r.port),
        run::closing_view(r).contains(
            LineView::Warning("Setup finished, but the interceptor is not running — see above."@),
        ),
        run::after(r, e).daemon_ok ==> run::closing_view(run::after(r, e)).contains(
            LineView::Bold("Done — the interceptor is running."@),
        ),
{
    let quiet = run::closing_view(r);
    let n = run::manual_lines(r).len() as int;
    assert(quiet[n + 1] == LineView::Warning(
        "Setup finished, but the interceptor is not running — see above."@,
    ));
    let next = run::after(r, e);
    let m = run::manual_lines(next).len() as int;
    if next.daemon_ok {
        assert(run::closing_view(next)[m + 1] == LineView::Bold(
            "Done — the interceptor is running."@,
        ));
    }
}

/// The user has to set the environment where it could not be set, and then is told how, with the proxy
/// and the CA; on Windows the variables are the user's own, and nothing is to be exported.
pub proof fn law_what_was_not_set_is_told(r: RunView, e: EventView)
    requires
        r.stage == Stage::Env,
        !r.manual_env,
    ensures
        ({
            let next = run::after(r, e);
            &&& next.manual_env <==> e is Failed || (e == EventView::Profile(None) && r.platform
                != Platform::Windows)
            &&& next.manual_env && r.platform != Platform::Windows ==> run::closing_view(
                next,
            ).contains(
                LineView::Plain(
                    "    export HTTPS_PROXY="@ + ("http://127.0.0.1:"@ + text::decimal(
                        r.port as nat,
                    )),
                ),
            ) && run::closing_view(next).contains(
                LineView::Plain("    export NODE_EXTRA_CA_CERTS="@ + r.ca),
            )
            &&& !next.manual_env || r.platform == Platform::Windows ==> run::manual_lines(
                next,
            ).len() == 0
        }),
{
    let next = run::after(r, e);
    let lines = run::closing_view(next);
    if next.manual_env && r.platform != Platform::Windows {
        assert(lines[2] == LineView::Plain(
            "    export HTTPS_PROXY="@ + ports::proxy_url_view(r.port),
        ));
        assert(lines[3] == LineView::Plain("    export NODE_EXTRA_CA_CERTS="@ + r.ca));
    }
}

/// What a run has found out stays: no later step takes it back.
pub proof fn law_what_a_run_knows_stays(r: RunView, e: EventView)
    ensures
        ({
            let next = run::after(r, e);
            &&& r.manual_env ==> next.manual_env
            &&& r.daemon_ok ==> next.daemon_ok
            &&& r.stage != Stage::Ca ==> next.ca == r.ca
            &&& next.pinned == r.pinned
            &&& next.rows.len() >= r.rows.len()
            &&& next.rows.take(r.rows.len() as int) == r.rows
        }),
{
    let next = run::after(r, e);
    assert(next.rows.take(r.rows.len() as int) =~= r.rows);
}

/// A step that went well has a row that says so; a row is a warning only where the step failed, and then
/// it ends with the reason.
pub proof fn law_rows_say_how_it_went(r: RunView, e: EventView)
    ensures
        ({
            let next = run::after(r, e);
            let n = r.rows.len() as int;
            &&& went_wrong(r.stage, e) ==> next.rows.len() > n && next.rows[n].mark == Mark::Warn
                && text::ends_with(next.rows[n].text, e->Failed_0)
            &&& went_well(r.stage, r.platform, e) && next.rows.len() > n ==> next.rows[n].mark
                != Mark::Warn
            &&& r.stage == Stage::Ca && e is Ca ==> next.rows.len() == n + 1 && next.rows[n].mark
                == Mark::Good && next.rows[n].text == e->Ca_0
            &&& r.stage == Stage::Autostart && e is Done ==> next.rows.len() > n
                && next.rows[n].mark == Mark::Good && next.rows[n].label == "Autostart"@
            &&& r.stage == Stage::Env && r.platform == Platform::Windows && e is Done
                ==> next.rows.len() == n + 1 && next.rows[n].mark == Mark::Good
                && next.rows[n].label == "Environment"@
            &&& r.stage == Stage::Env && r.platform != Platform::Windows && e is Profile
                ==> next.rows.len() == n + 1 && next.rows[n].label == "Profile"@ && (
            next.rows[n].mark == Mark::Good <==> e->Profile_0 is Some)
            &&& r.stage == Stage::Legacy && e is Profile ==> next.rows.len() == n + (
            if e->Profile_0 is Some {
                1int
            } else {
                0
            })
            &&& r.stage == Stage::Spawn && e is Spawned ==> next.rows.len() == n + 1
                && next.rows[n].mark == Mark::Good && next.rows[n].label == "Interceptor"@
                && next.rows[n].text == "running · pid "@ + text::decimal(e->Spawned_0 as nat)
                + " · port "@ + text::decimal(r.port as nat)
        }),
{
    if e is Failed {
        let why = e->Failed_0;
        lemma_ends("not set: "@, why);
        lemma_ends("not written: "@, why);
        lemma_ends("legacy env block not removed: "@, why);
        lemma_ends("not enabled: "@, why);
        lemma_ends("could not stop: "@, why);
        lemma_ends("not started: "@, why);
    }
}

proof fn lemma_ends(a: Seq<char>, b: Seq<char>)
    ensures
        text::ends_with(a + b, b),
{
    assert((a + b).subrange(a.len() as int, (a + b).len() as int) =~= b);
}

/// A port that nobody asked for is told where it is not the default, both numbers with it; in any other
/// case there is nothing to tell.
pub proof fn law_a_found_port_is_told(r: RunView)
    ensures
        run::port_note_view(r) is Some <==> r.pinned is None && r.port != ports::DEFAULT_PORT,
        run::port_note_view(r) is Some ==> text::ends_with(
            run::port_note_view(r)->0,
            text::decimal(r.port as nat) + "."@,
        ) && text::starts_with(
            run::port_note_view(r)->0,
            "Port "@ + text::decimal(ports::DEFAULT_PORT as nat),
        ),
{
    let d = text::decimal(ports::DEFAULT_PORT as nat);
    let p = text::decimal(r.port as nat);
    let whole = "Port "@ + d + " busy — using "@ + p + "."@;
    assert(whole =~= ("Port "@ + d + " busy — using "@) + (p + "."@));
    lemma_ends("Port "@ + d + " busy — using "@, p + "."@);
    assert(whole.subrange(0, ("Port "@ + d).len() as int) =~= "Port "@ + d);
}

/// The closing lines name the address that programs have to see, in the words of the platform.
pub proof fn law_the_check_names_the_address(r: RunView)
    ensures
        ({
            let lines = run::closing_view(r);
            let address = "http://127.0.0.1:"@ + text::decimal(r.port as nat);
            &&& r.platform == Platform::Windows ==> lines.contains(
                LineView::Plain("  2. verify it took:  echo $env:HTTPS_PROXY  →  "@ + address),
            )
            &&& r.platform != Platform::Windows ==> lines.contains(
                LineView::Plain("  2. verify it took:  echo $HTTPS_PROXY  →  "@ + address),
            )
            &&& lines.contains(LineView::Hint("watch savings"@, "llmtrim status"@))
        }),
{
    let lines = run::closing_view(r);
    let n = run::manual_lines(r).len() as int;
    let check = if r.platform == Platform::Windows {
        "  2. verify it took:  echo $env:HTTPS_PROXY  →  "@
    } else {
        "  2. verify it took:  echo $HTTPS_PROXY  →  "@
    };
    assert(lines[n + 5] == LineView::Plain(check + ports::proxy_url_view(r.port)));
    assert(lines[n + 8] == LineView::Hint("watch savings"@, "llmtrim status"@));
}

// ---------------------------------------------------------------------------------------------
// Uninstalling
// ---------------------------------------------------------------------------------------------

/// Whether an event answers what an uninstallation asked for.
pub open spec fn answers(wanted: uninstall::Action, e: uninstall::EventView) -> bool {
    match wanted {
        uninstall::Action::StopDaemon => e is Stopped || e is Nothing || e is Failed,
        uninstall::Action::DisableAutostart => e is Done || e is Failed,
        uninstall::Action::ClearUserEnv => e is Done || e is Nothing || e is Failed,
        uninstall::Action::RemoveProfileBlock => e is Path || e is Nothing || e is Failed,
        uninstall::Action::Broadcast => e is Done,
        uninstall::Action::RemoveState => e is Path || e is Stuck || e is Nothing || e is Failed,
        uninstall::Action::FindLedger => e is Path || e is Nothing || e is Failed,
        uninstall::Action::RemoveLedger => e is Done || e is Failed,
        uninstall::Action::FindBinary => e is Path || e is Failed,
        uninstall::Action::RemoveBinary => e is Done || e is Failed,
        uninstall::Action::CleanPath => e is Done || e is Nothing || e is Failed,
        uninstall::Action::ScheduleRemoval => e is Path || e is Nothing || e is Failed,
        uninstall::Action::Rebroadcast => e is Done,
        uninstall::Action::Report => false,
    }
}

/// The step after the ledger.
pub open spec fn after_the_ledger(u: UninstallView) -> uninstall::Action {
    if u.keep_binary {
        uninstall::Action::Report
    } else {
        uninstall::Action::FindBinary
    }
}

/// The step that follows.
pub open spec fn goes_on(u: UninstallView, e: uninstall::EventView) -> uninstall::Action {
    let windows = u.platform == Platform::Windows;
    match u.wanted {
        uninstall::Action::StopDaemon => uninstall::Action::DisableAutostart,
        uninstall::Action::DisableAutostart => if windows {
            uninstall::Action::ClearUserEnv
        } else {
            uninstall::Action::RemoveProfileBlock
        },
        uninstall::Action::ClearUserEnv => uninstall::Action::RemoveProfileBlock,
        uninstall::Action::RemoveProfileBlock => if windows {
            uninstall::Action::Broadcast
        } else {
            uninstall::Action::RemoveState
        },
        uninstall::Action::Broadcast => uninstall::Action::RemoveState,
        uninstall::Action::RemoveState => uninstall::Action::FindLedger,
        uninstall::Action::FindLedger => if u.purge && e is Path {
            uninstall::Action::RemoveLedger
        } else {
            after_the_ledger(u)
        },
        uninstall::Action::RemoveLedger => after_the_ledger(u),
        uninstall::Action::FindBinary => if e is Failed || u.platform == Platform::Other {
            uninstall::Action::Report
        } else if windows {
            uninstall::Action::CleanPath
        } else {
            uninstall::Action::RemoveBinary
        },
        uninstall::Action::RemoveBinary => uninstall::Action::Report,
        uninstall::Action::CleanPath => uninstall::Action::ScheduleRemoval,
        uninstall::Action::ScheduleRemoval => uninstall::Action::Rebroadcast,
        uninstall::Action::Rebroadcast => uninstall::Action::Report,
        uninstall::Action::Report => uninstall::Action::Report,
    }
}

/// An uninstallation begins with the interceptor and leaves out nothing that it was not told to spare:
/// whatever answers a step leads to the next, and what answers it not changes nothing.
pub proof fn law_uninstall_takes_every_step(
    u: UninstallView,
    e: uninstall::EventView,
    platform: Platform,
    purge: bool,
    keep_binary: bool,
)
    ensures
        uninstall::started(platform, purge, keep_binary).wanted == uninstall::Action::StopDaemon,
        uninstall::started(platform, purge, keep_binary).rows.len() == 0,
        answers(u.wanted, e) ==> uninstall::after(u, e).wanted == goes_on(u, e),
        !answers(u.wanted, e) ==> uninstall::after(u, e) == u,
{
}

/// The first row that an event adds.
pub open spec fn told(u: UninstallView, e: uninstall::EventView) -> Option<Mark> {
    let next = uninstall::after(u, e);
    if next.rows.len() > u.rows.len() {
        Some(next.rows[u.rows.len() as int].mark)
    } else {
        None
    }
}

/// A row is a warning exactly where the step failed or the directory could not be removed, and good only
/// where something was done; rows that are there stay, and what was to be spared is said to be kept.
pub proof fn law_removals_say_how_they_went(u: UninstallView, e: uninstall::EventView)
    requires
        answers(u.wanted, e),
    ensures
        ({
            let next = uninstall::after(u, e);
            let n = u.rows.len() as int;
            &&& told(u, e) == Some(Mark::Warn) <==> e is Failed || e is Stuck
            &&& told(u, e) == Some(Mark::Good) ==> e is Done || e is Stopped || e is Path
            &&& e is Stopped ==> told(u, e) == Some(Mark::Good)
            &&& e is Done && u.wanted != uninstall::Action::Broadcast && u.wanted
                != uninstall::Action::Rebroadcast ==> told(u, e) == Some(Mark::Good)
            &&& e is Path && (u.wanted == uninstall::Action::RemoveProfileBlock || u.wanted
                == uninstall::Action::RemoveState || u.wanted == uninstall::Action::ScheduleRemoval)
                ==> told(u, e) == Some(Mark::Good)
            &&& e is Failed ==> text::ends_with(next.rows[n].text, e->Failed_0)
            &&& next.rows.take(n) == u.rows
            &&& u.wanted == uninstall::Action::FindLedger && e is Path && !u.purge
                ==> next.rows.len() > n && next.rows[n].label == "Ledger"@ && next.rows[n].text
                == "kept "@ + e->Path_0 + " (use --purge to remove)"@
            &&& u.keep_binary && (u.wanted == uninstall::Action::FindLedger || u.wanted
                == uninstall::Action::RemoveLedger) && next.wanted == uninstall::Action::Report
                ==> next.rows.len() > n && next.rows.last().label == "Binary"@
                && next.rows.last().text == "kept"@
        }),
{
    let next = uninstall::after(u, e);
    assert(next.rows.take(u.rows.len() as int) =~= u.rows);
    if e is Failed {
        let why = e->Failed_0;
        lemma_ends("could not stop: "@, why);
        lemma_ends("not changed: "@, why);
        lemma_ends("not cleaned: "@, why);
        lemma_ends("legacy env block not removed: "@, why);
        lemma_ends("not removed: "@, why);
        lemma_ends("not found: "@, why);
        lemma_ends("could not remove "@ + u.found + ": "@, why);
        lemma_ends("could not schedule the removal of "@ + u.found + ": "@, why);
    }
}

/// What was found is what is removed, and what is told of.
pub proof fn law_what_is_found_is_removed(u: UninstallView, p: Seq<char>)
    ensures
        u.wanted == uninstall::Action::FindLedger && u.purge ==> uninstall::after(
            u,
            uninstall::EventView::Path(p),
        ).found == p,
        u.wanted == uninstall::Action::FindBinary && u.platform != Platform::Other
            ==> uninstall::after(u, uninstall::EventView::Path(p)).found == p,
        u.wanted == uninstall::Action::FindBinary && u.platform == Platform::Other
            ==> uninstall::after(u, uninstall::EventView::Path(p)).rows.last().text
            == "remove manually: "@ + p,
        u.wanted == uninstall::Action::RemoveLedger || u.wanted == uninstall::Action::RemoveBinary
            ==> uninstall::after(u, uninstall::EventView::Done).rows[u.rows.len() as int].text
            == "removed "@ + u.found,
        u.wanted == uninstall::Action::ScheduleRemoval ==> uninstall::after(
            u,
            uninstall::EventView::Nothing,
        ).rows.last().text == "remove manually: "@ + u.found,
        u.wanted != uninstall::Action::FindLedger && u.wanted != uninstall::Action::FindBinary
            ==> uninstall::after(u, uninstall::EventView::Path(p)).found == u.found,
{
}

} // verus!
