//! Uninstalling: the inverse of setting up, step by step, and what is reported of it.
//!
//! [`UninstallRun`] decides; its caller performs the [`Action`] that it asks for and hands back the
//! [`Event`]. A step that fails becomes a warning and the rest proceeds; nothing is silent.
use crate::setup::report;
use crate::setup::report::{Line, LineView, Mark, Platform, Row, RowView};
use crate::text;
use vstd::prelude::*;

verus! {

/// What is to be done next.
#[derive(Debug, Clone, Copy, PartialEq, Eq, Structural)]
pub enum Action {
    /// Stop the interceptor.
    StopDaemon,
    /// Do not start the interceptor at login any more.
    DisableAutostart,
    /// Remove the variables from the user's environment.
    ClearUserEnv,
    /// Remove the managed block from the shell profile.
    RemoveProfileBlock,
    /// Tell running programs that the environment changed.
    Broadcast,
    /// Remove the directory of the CA and the daemon's state.
    RemoveState,
    /// Find the ledger's file.
    FindLedger,
    /// Remove the ledger's file.
    RemoveLedger,
    /// Find the program's own file.
    FindBinary,
    /// Remove the program's own file.
    RemoveBinary,
    /// Drop the installer's directory from the user's `PATH`.
    CleanPath,
    /// Remove the installer's directory after the program has ended, if the program lives there.
    ScheduleRemoval,
    /// Tell running programs that the `PATH` changed.
    Rebroadcast,
    /// Print the report.
    Report,
}

/// How an action went.
#[derive(Debug, PartialEq)]
pub enum Event {
    /// The action is done.
    Done,
    /// The action failed with this message, and the rest proceeds.
    Failed(String),
    /// There was nothing to do, or nothing was found.
    Nothing,
    /// The interceptor with this process id was stopped.
    Stopped(u32),
    /// The file or directory that was found, changed or removed.
    Path(String),
    /// The directory that could not be removed, and why.
    Stuck(String, String),
}

/// An event with its texts as sequences of characters.
pub enum EventView {
    Done,
    Failed(Seq<char>),
    Nothing,
    Stopped(u32),
    Path(Seq<char>),
    Stuck(Seq<char>, Seq<char>),
}

impl View for Event {
    type V = EventView;

    open spec fn view(&self) -> EventView {
        match self {
            Event::Done => EventView::Done,
            Event::Failed(s) => EventView::Failed(s@),
            Event::Nothing => EventView::Nothing,
            Event::Stopped(p) => EventView::Stopped(*p),
            Event::Path(s) => EventView::Path(s@),
            Event::Stuck(p, s) => EventView::Stuck(p@, s@),
        }
    }
}

// ---------------------------------------------------------------------------------------------
// The model
// ---------------------------------------------------------------------------------------------

/// The state of an uninstallation.
#[verifier::ext_equal]
pub struct UninstallView {
    pub platform: Platform,
    /// Whether the ledger goes too.
    pub purge: bool,
    /// Whether the program's own file stays.
    pub keep_binary: bool,
    pub wanted: Action,
    /// The file that the last action found.
    pub found: Seq<char>,
    pub rows: Seq<RowView>,
}

/// An uninstallation at its beginning.
pub open spec fn started(platform: Platform, purge: bool, keep_binary: bool) -> UninstallView {
    UninstallView {
        platform,
        purge,
        keep_binary,
        wanted: Action::StopDaemon,
        found: Seq::empty(),
        rows: Seq::empty(),
    }
}

/// `u` with one more row, at another step.
pub open spec fn noted(
    u: UninstallView,
    wanted: Action,
    mark: Mark,
    label: Seq<char>,
    text: Seq<char>,
) -> UninstallView {
    UninstallView { wanted, rows: u.rows.push(report::row_view(mark, label, text)), ..u }
}

/// `u` at another step.
pub open spec fn at(u: UninstallView, wanted: Action) -> UninstallView {
    UninstallView { wanted, ..u }
}

/// The step that removes the environment.
pub open spec fn env_step(platform: Platform) -> Action {
    if platform == Platform::Windows {
        Action::ClearUserEnv
    } else {
        Action::RemoveProfileBlock
    }
}

/// `u` once the environment and the state are gone and the ledger is dealt with: the program's own
/// file is next, unless it stays.
pub open spec fn at_binary(u: UninstallView) -> UninstallView {
    if u.keep_binary {
        noted(u, Action::Report, Mark::Note, "Binary"@, "kept"@)
    } else {
        at(u, Action::FindBinary)
    }
}

/// `u` once the program's own file is known.
pub open spec fn at_found_binary(u: UninstallView, exe: Seq<char>) -> UninstallView {
    match u.platform {
        Platform::Unix => UninstallView { found: exe, ..at(u, Action::RemoveBinary) },
        Platform::Windows => UninstallView { found: exe, ..at(u, Action::CleanPath) },
        Platform::Other => noted(
            u,
            Action::Report,
            Mark::Note,
            "Binary"@,
            "remove manually: "@ + exe,
        ),
    }
}

/// The report of the profile's block.
pub open spec fn after_profile(u: UninstallView, e: EventView) -> UninstallView {
    if u.platform == Platform::Windows {
        match e {
            EventView::Path(p) => noted(
                u,
                Action::Broadcast,
                Mark::Good,
                "Profile"@,
                "legacy env block removed from "@ + p,
            ),
            EventView::Nothing => at(u, Action::Broadcast),
            EventView::Failed(why) => noted(
                u,
                Action::Broadcast,
                Mark::Warn,
                "Profile"@,
                "legacy env block not removed: "@ + why,
            ),
            _ => u,
        }
    } else {
        match e {
            EventView::Path(p) => noted(
                u,
                Action::RemoveState,
                Mark::Good,
                "Profile"@,
                "env block removed from "@ + p,
            ),
            EventView::Nothing => noted(
                u,
                Action::RemoveState,
                Mark::Note,
                "Profile"@,
                "no env block to remove"@,
            ),
            EventView::Failed(why) => noted(
                u,
                Action::RemoveState,
                Mark::Warn,
                "Profile"@,
                "not cleaned: "@ + why,
            ),
            _ => u,
        }
    }
}

/// An uninstallation after an event. An event that does not answer what was asked changes nothing.
pub open spec fn after(u: UninstallView, e: EventView) -> UninstallView {
    match (u.wanted, e) {
        (Action::StopDaemon, EventView::Stopped(pid)) => noted(
            u,
            Action::DisableAutostart,
            Mark::Good,
            "Interceptor"@,
            "stopped (pid "@ + text::decimal(pid as nat) + ")"@,
        ),
        (Action::StopDaemon, EventView::Nothing) => noted(
            u,
            Action::DisableAutostart,
            Mark::Note,
            "Interceptor"@,
            "no daemon was running"@,
        ),
        (Action::StopDaemon, EventView::Failed(why)) => noted(
            u,
            Action::DisableAutostart,
            Mark::Warn,
            "Interceptor"@,
            "could not stop: "@ + why,
        ),
        (Action::DisableAutostart, EventView::Done) => noted(
            u,
            env_step(u.platform),
            Mark::Good,
            "Autostart"@,
            "disabled"@,
        ),
        (Action::DisableAutostart, EventView::Failed(why)) => noted(
            u,
            env_step(u.platform),
            Mark::Warn,
            "Autostart"@,
            "not changed: "@ + why,
        ),
        (Action::ClearUserEnv, EventView::Done) => noted(
            u,
            Action::RemoveProfileBlock,
            Mark::Good,
            "Environment"@,
            "interceptor env removed from HKCU\\Environment"@,
        ),
        (Action::ClearUserEnv, EventView::Nothing) => noted(
            u,
            Action::RemoveProfileBlock,
            Mark::Note,
            "Environment"@,
            "no interceptor env to remove"@,
        ),
        (Action::ClearUserEnv, EventView::Failed(why)) => noted(
            u,
            Action::RemoveProfileBlock,
            Mark::Warn,
            "Environment"@,
            "not cleaned: "@ + why,
        ),
        (Action::RemoveProfileBlock, _) => after_profile(u, e),
        (Action::Broadcast, EventView::Done) => at(u, Action::RemoveState),
        (Action::RemoveState, EventView::Path(p)) => noted(
            u,
            Action::FindLedger,
            Mark::Good,
            "State"@,
            "removed "@ + p + " (CA, key, daemon state)"@,
        ),
        (Action::RemoveState, EventView::Stuck(p, why)) => noted(
            u,
            Action::FindLedger,
            Mark::Warn,
            "State"@,
            "could not remove "@ + p + ": "@ + why,
        ),
        (Action::RemoveState, EventView::Nothing) => noted(
            u,
            Action::FindLedger,
            Mark::Note,
            "State"@,
            "no state directory to remove"@,
        ),
        (Action::RemoveState, EventView::Failed(why)) => noted(
            u,
            Action::FindLedger,
            Mark::Warn,
            "State"@,
            "not removed: "@ + why,
        ),
        (Action::FindLedger, EventView::Path(p)) => if u.purge {
            UninstallView { found: p, ..at(u, Action::RemoveLedger) }
        } else {
            at_binary(
                noted(
                    u,
                    Action::FindLedger,
                    Mark::Note,
                    "Ledger"@,
                    "kept "@ + p + " (use --purge to remove)"@,
                ),
            )
        },
        (Action::FindLedger, EventView::Nothing) => at_binary(u),
        (Action::FindLedger, EventView::Failed(why)) => at_binary(
            noted(u, Action::FindLedger, Mark::Warn, "Ledger"@, "not found: "@ + why),
        ),
        (Action::RemoveLedger, EventView::Done) => at_binary(
            noted(u, Action::RemoveLedger, Mark::Good, "Ledger"@, "removed "@ + u.found),
        ),
        (Action::RemoveLedger, EventView::Failed(why)) => at_binary(
            noted(
                u,
                Action::RemoveLedger,
                Mark::Warn,
                "Ledger"@,
                "could not remove "@ + u.found + ": "@ + why,
            ),
        ),
        (Action::FindBinary, EventView::Path(exe)) => at_found_binary(u, exe),
        (Action::FindBinary, EventView::Failed(why)) => noted(
            u,
            Action::Report,
            Mark::Warn,
            "Binary"@,
            "not found: "@ + why,
        ),
        (Action::RemoveBinary, EventView::Done) => noted(
            u,
            Action::Report,
            Mark::Good,
            "Binary"@,
            "removed "@ + u.found,
        ),
        (Action::RemoveBinary, EventView::Failed(why)) => noted(
            u,
            Action::Report,
            Mark::Warn,
            "Binary"@,
            "could not remove "@ + u.found + ": "@ + why,
        ),
        (Action::CleanPath, EventView::Done) => noted(
            u,
            Action::ScheduleRemoval,
            Mark::Good,
            "PATH"@,
            "removed the llmtrim bin dir from your user PATH"@,
        ),
        (Action::CleanPath, EventView::Nothing) => at(u, Action::ScheduleRemoval),
        (Action::CleanPath, EventView::Failed(why)) => noted(
            u,
            Action::ScheduleRemoval,
            Mark::Warn,
            "PATH"@,
            "not cleaned: "@ + why,
        ),
        (Action::ScheduleRemoval, EventView::Path(dir)) => noted(
            u,
            Action::Rebroadcast,
            Mark::Good,
            "Binary"@,
            "scheduled removal of "@ + dir + " after exit"@,
        ),
        (Action::ScheduleRemoval, EventView::Nothing) => noted(
            u,
            Action::Rebroadcast,
            Mark::Note,
            "Binary"@,
            "remove manually: "@ + u.found,
        ),
        (Action::ScheduleRemoval, EventView::Failed(why)) => noted(
            u,
            Action::Rebroadcast,
            Mark::Warn,
            "Binary"@,
            "could not schedule the removal of "@ + u.found + ": "@ + why,
        ),
        (Action::Rebroadcast, EventView::Done) => at(u, Action::Report),
        _ => u,
    }
}

/// The lines below the panel.
pub open spec fn closing_view() -> Seq<LineView> {
    seq![
        LineView::Blank,
        LineView::Bold("Done. Open a new shell so the environment changes take effect."@),
        LineView::Note(
            "If you trusted the CA system-wide manually, remove it from your OS trust store."@,
        ),
    ]
}

// ---------------------------------------------------------------------------------------------
// The run
// ---------------------------------------------------------------------------------------------

/// A run of `uninstall`.
#[derive(Debug)]
pub struct UninstallRun {
    platform: Platform,
    purge: bool,
    keep_binary: bool,
    wanted: Action,
    found: String,
    rows: Vec<Row>,
}

impl View for UninstallRun {
    type V = UninstallView;

    closed spec fn view(&self) -> UninstallView {
        UninstallView {
            platform: self.platform,
            purge: self.purge,
            keep_binary: self.keep_binary,
            wanted: self.wanted,
            found: self.found@,
            rows: report::rows_view(self.rows@),
        }
    }
}

impl UninstallRun {
    /// Begins an uninstallation.
    pub fn new(platform: Platform, purge: bool, keep_binary: bool) -> (r: UninstallRun)
        ensures
            r@ == started(platform, purge, keep_binary),
    {
        let r = UninstallRun {
            platform,
            purge,
            keep_binary,
            wanted: Action::StopDaemon,
            found: String::new(),
            rows: Vec::new(),
        };
        assert(r@ =~= started(platform, purge, keep_binary));
        r
    }

    /// What is to be done next.
    pub fn action(&self) -> (r: Action)
        ensures
            r == self@.wanted,
    {
        self.wanted
    }

    /// The file that the last action found: what is to be removed.
    pub fn found(&self) -> (r: &str)
        ensures
            r@ == self@.found,
    {
        self.found.as_str()
    }

    /// The rows of the panel.
    pub fn rows(&self) -> (r: &Vec<Row>)
        ensures
            report::rows_view(r@) == self@.rows,
    {
        &self.rows
    }

    /// The lines below the panel.
    pub fn closing(&self) -> (r: Vec<Line>)
        ensures
            report::lines_view(r@) == closing_view(),
    {
        let mut lines: Vec<Line> = Vec::new();
        assert(report::lines_view(lines@) =~= Seq::<LineView>::empty());
        report::add_line(&mut lines, Line::Blank);
        report::add_line(
            &mut lines,
            Line::Bold("Done. Open a new shell so the environment changes take effect.".to_owned()),
        );
        report::add_line(
            &mut lines,
            Line::Note(
                "If you trusted the CA system-wide manually, remove it from your OS trust store.".to_owned(),
            ),
        );
        assert(report::lines_view(lines@) =~= closing_view());
        lines
    }

    fn note(&mut self, wanted: Action, mark: Mark, label: &str, text: &str)
        ensures
            final(self)@ == noted(old(self)@, wanted, mark, label@, text@),
    {
        report::add_row(&mut self.rows, mark, label, text);
        self.wanted = wanted;
        assert(self@ =~= noted(old(self)@, wanted, mark, label@, text@));
    }

    fn go(&mut self, wanted: Action)
        ensures
            final(self)@ == at(old(self)@, wanted),
    {
        self.wanted = wanted;
        assert(self@ =~= at(old(self)@, wanted));
    }

    fn remember(&mut self, wanted: Action, found: String)
        ensures
            final(self)@ == (UninstallView { found: found@, ..at(old(self)@, wanted) }),
    {
        self.wanted = wanted;
        self.found = found;
        assert(self@ =~= (UninstallView { found: found@, ..at(old(self)@, wanted) }));
    }

    fn go_to_binary(&mut self)
        ensures
            final(self)@ == at_binary(old(self)@),
    {
        if self.keep_binary {
            self.note(Action::Report, Mark::Note, "Binary", "kept");
        } else {
            self.go(Action::FindBinary);
        }
    }

    fn take_profile(&mut self, event: Event)
        ensures
            final(self)@ == after_profile(old(self)@, event@),
    {
        let windows = self.platform == Platform::Windows;
        match event {
            Event::Path(p) => {
                if windows {
                    let how = report::join2("legacy env block removed from ", p.as_str());
                    self.note(Action::Broadcast, Mark::Good, "Profile", how.as_str());
                } else {
                    let how = report::join2("env block removed from ", p.as_str());
                    self.note(Action::RemoveState, Mark::Good, "Profile", how.as_str());
                }
            },
            Event::Nothing => {
                if windows {
                    self.go(Action::Broadcast);
                } else {
                    self.note(
                        Action::RemoveState,
                        Mark::Note,
                        "Profile",
                        "no env block to remove",
                    );
                }
            },
            Event::Failed(why) => {
                if windows {
                    let how = report::join2("legacy env block not removed: ", why.as_str());
                    self.note(Action::Broadcast, Mark::Warn, "Profile", how.as_str());
                } else {
                    let how = report::join2("not cleaned: ", why.as_str());
                    self.note(Action::RemoveState, Mark::Warn, "Profile", how.as_str());
                }
            },
            _ => {},
        }
    }

    fn take_early(&mut self, event: Event)
        requires
            old(self)@.wanted == Action::StopDaemon || old(self)@.wanted == Action::DisableAutostart
                || old(self)@.wanted == Action::ClearUserEnv,
        ensures
            final(self)@ == after(old(self)@, event@),
    {
        let env = if self.platform == Platform::Windows {
            Action::ClearUserEnv
        } else {
            Action::RemoveProfileBlock
        };
        match (self.wanted, event) {
            (Action::StopDaemon, Event::Stopped(pid)) => {
                let how = report::join3(
                    "stopped (pid ",
                    text::decimal_text(pid as u64).as_str(),
                    ")",
                );
                self.note(Action::DisableAutostart, Mark::Good, "Interceptor", how.as_str());
            },
            (Action::StopDaemon, Event::Nothing) => self.note(
                Action::DisableAutostart,
                Mark::Note,
                "Interceptor",
                "no daemon was running",
            ),
            (Action::StopDaemon, Event::Failed(why)) => {
                let how = report::join2("could not stop: ", why.as_str());
                self.note(Action::DisableAutostart, Mark::Warn, "Interceptor", how.as_str());
            },
            (Action::DisableAutostart, Event::Done) => self.note(
                env,
                Mark::Good,
                "Autostart",
                "disabled",
            ),
            (Action::DisableAutostart, Event::Failed(why)) => {
                let how = report::join2("not changed: ", why.as_str());
                self.note(env, Mark::Warn, "Autostart", how.as_str());
            },
            (Action::ClearUserEnv, Event::Done) => self.note(
                Action::RemoveProfileBlock,
                Mark::Good,
                "Environment",
                "interceptor env removed from HKCU\\Environment",
            ),
            (Action::ClearUserEnv, Event::Nothing) => self.note(
                Action::RemoveProfileBlock,
                Mark::Note,
                "Environment",
                "no interceptor env to remove",
            ),
            (Action::ClearUserEnv, Event::Failed(why)) => {
                let how = report::join2("not cleaned: ", why.as_str());
                self.note(Action::RemoveProfileBlock, Mark::Warn, "Environment", how.as_str());
            },
            _ => {},
        }
    }

    fn take_state(&mut self, event: Event)
        requires
            old(self)@.wanted == Action::RemoveState || old(self)@.wanted == Action::FindLedger
                || old(self)@.wanted == Action::RemoveLedger,
        ensures
            final(self)@ == after(old(self)@, event@),
    {
        match (self.wanted, event) {
            (Action::RemoveState, Event::Path(p)) => {
                let how = report::join3("removed ", p.as_str(), " (CA, key, daemon state)");
                self.note(Action::FindLedger, Mark::Good, "State", how.as_str());
            },
            (Action::RemoveState, Event::Stuck(p, why)) => {
                let how = report::join4("could not remove ", p.as_str(), ": ", why.as_str());
                self.note(Action::FindLedger, Mark::Warn, "State", how.as_str());
            },
            (Action::RemoveState, Event::Nothing) => self.note(
                Action::FindLedger,
                Mark::Note,
                "State",
                "no state directory to remove",
            ),
            (Action::RemoveState, Event::Failed(why)) => {
                let how = report::join2("not removed: ", why.as_str());
                self.note(Action::FindLedger, Mark::Warn, "State", how.as_str());
            },
            (Action::FindLedger, Event::Path(p)) => {
                if self.purge {
                    self.remember(Action::RemoveLedger, p);
                } else {
                    let how = report::join3("kept ", p.as_str(), " (use --purge to remove)");
                    self.note(Action::FindLedger, Mark::Note, "Ledger", how.as_str());
                    self.go_to_binary();
                }
            },
            (Action::FindLedger, Event::Nothing) => self.go_to_binary(),
            (Action::FindLedger, Event::Failed(why)) => {
                let how = report::join2("not found: ", why.as_str());
                self.note(Action::FindLedger, Mark::Warn, "Ledger", how.as_str());
                self.go_to_binary();
            },
            (Action::RemoveLedger, Event::Done) => {
                let how = report::join2("removed ", self.found.as_str());
                self.note(Action::RemoveLedger, Mark::Good, "Ledger", how.as_str());
                self.go_to_binary();
            },
            (Action::RemoveLedger, Event::Failed(why)) => {
                let how = report::join4(
                    "could not remove ",
                    self.found.as_str(),
                    ": ",
                    why.as_str(),
                );
                self.note(Action::RemoveLedger, Mark::Warn, "Ledger", how.as_str());
                self.go_to_binary();
            },
            _ => {},
        }
    }

    fn take_binary(&mut self, event: Event)
        requires
            old(self)@.wanted == Action::FindBinary || old(self)@.wanted == Action::RemoveBinary
                || old(self)@.wanted == Action::CleanPath || old(self)@.wanted
                == Action::ScheduleRemoval,
        ensures
            final(self)@ == after(old(self)@, event@),
    {
        match (self.wanted, event) {
            (Action::FindBinary, Event::Path(exe)) => {
                match self.platform {
                    Platform::Unix => self.remember(Action::RemoveBinary, exe),
                    Platform::Windows => self.remember(Action::CleanPath, exe),
                    Platform::Other => {
                        let how = report::join2("remove manually: ", exe.as_str());
                        self.note(Action::Report, Mark::Note, "Binary", how.as_str());
                    },
                }
            },
            (Action::FindBinary, Event::Failed(why)) => {
                let how = report::join2("not found: ", why.as_str());
                self.note(Action::Report, Mark::Warn, "Binary", how.as_str());
            },
            (Action::RemoveBinary, Event::Done) => {
                let how = report::join2("removed ", self.found.as_str());
                self.note(Action::Report, Mark::Good, "Binary", how.as_str());
            },
            (Action::RemoveBinary, Event::Failed(why)) => {
                let how = report::join4(
                    "could not remove ",
                    self.found.as_str(),
                    ": ",
                    why.as_str(),
                );
                self.note(Action::Report, Mark::Warn, "Binary", how.as_str());
            },
            (Action::CleanPath, Event::Done) => self.note(
                Action::ScheduleRemoval,
                Mark::Good,
                "PATH",
                "removed the llmtrim bin dir from your user PATH",
            ),
            (Action::CleanPath, Event::Nothing) => self.go(Action::ScheduleRemoval),
            (Action::CleanPath, Event::Failed(why)) => {
                let how = report::join2("not cleaned: ", why.as_str());
                self.note(Action::ScheduleRemoval, Mark::Warn, "PATH", how.as_str());
            },
            (Action::ScheduleRemoval, Event::Path(dir)) => {
                let how = report::join3("scheduled removal of ", dir.as_str(), " after exit");
                self.note(Action::Rebroadcast, Mark::Good, "Binary", how.as_str());
            },
            (Action::ScheduleRemoval, Event::Nothing) => {
                let how = report::join2("remove manually: ", self.found.as_str());
                self.note(Action::Rebroadcast, Mark::Note, "Binary", how.as_str());
            },
            (Action::ScheduleRemoval, Event::Failed(why)) => {
                let how = report::join4(
                    "could not schedule the removal of ",
                    self.found.as_str(),
                    ": ",
                    why.as_str(),
                );
                self.note(Action::Rebroadcast, Mark::Warn, "Binary", how.as_str());
            },
            _ => {},
        }
    }

    /// Takes how the last action went.
    pub fn take(&mut self, event: Event)
        ensures
            final(self)@ == after(old(self)@, event@),
    {
        match self.wanted {
            Action::StopDaemon => self.take_early(event),
            Action::DisableAutostart => self.take_early(event),
            Action::ClearUserEnv => self.take_early(event),
            Action::RemoveProfileBlock => self.take_profile(event),
            Action::Broadcast => {
                if let Event::Done = event {
                    self.go(Action::RemoveState);
                }
            },
            Action::RemoveState => self.take_state(event),
            Action::FindLedger => self.take_state(event),
            Action::RemoveLedger => self.take_state(event),
            Action::FindBinary => self.take_binary(event),
            Action::RemoveBinary => self.take_binary(event),
            Action::CleanPath => self.take_binary(event),
            Action::ScheduleRemoval => self.take_binary(event),
            Action::Rebroadcast => {
                if let Event::Done = event {
                    self.go(Action::Report);
                }
            },
            Action::Report => {},
        }
    }
}

} // verus!
