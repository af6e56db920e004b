//! Setting up: which steps are taken, in which order, and what is reported of them.
//!
//! [`SetupRun`] decides; its caller performs the [`Action`] that it asks for and hands back the
//! [`Event`]. The port is settled once, before anything is wired: the environment, the entry that
//! starts the interceptor at login and the interceptor itself have to agree on it. A step that fails
//! becomes a warning and the rest proceeds; only without a port or a CA there is nothing to wire, and
//! the caller gives up.
use crate::setup::ports;
use crate::setup::ports::PortChoice;
use crate::setup::report;
use crate::setup::report::{Line, LineView, Mark, Platform, Row, RowView};
use crate::text;
use vstd::prelude::*;

verus! {

/// A live interceptor.
#[derive(Debug, Clone, Copy, PartialEq, Eq, Structural)]
pub struct Daemon {
    pub pid: u32,
    pub port: u16,
}

/// What is to be done next.
#[derive(Debug, PartialEq)]
pub enum Action {
    /// Find the first free port from `start` on.
    FindPort { start: u16 },
    /// Make sure that the local CA is there.
    EnsureCa,
    /// Write the managed block to the shell profile.
    WriteProfile { proxy: String, ca: String },
    /// Set the variables of the user's environment.
    SetUserEnv { proxy: String, ca: String },
    /// Remove a managed block that an earlier version left in a profile.
    RemoveLegacyBlock,
    /// Tell running programs that the environment changed.
    Broadcast,
    /// Start the interceptor on `port` at login.
    EnableAutostart { port: u16 },
    /// Stop an interceptor that is dead or on another port.
    StopDaemon,
    /// Start the interceptor on `port`.
    SpawnDaemon { port: u16 },
    /// Print the report.
    Report,
}

/// An action with its texts as sequences of characters.
pub enum ActionView {
    FindPort { start: u16 },
    EnsureCa,
    WriteProfile { proxy: Seq<char>, ca: Seq<char> },
    SetUserEnv { proxy: Seq<char>, ca: Seq<char> },
    RemoveLegacyBlock,
    Broadcast,
    EnableAutostart { port: u16 },
    StopDaemon,
    SpawnDaemon { port: u16 },
    Report,
}

impl View for Action {
    type V = ActionView;

    open spec fn view(&self) -> ActionView {
        match self {
            Action::FindPort { start } => ActionView::FindPort { start: *start },
            Action::EnsureCa => ActionView::EnsureCa,
            Action::WriteProfile { proxy, ca } => ActionView::WriteProfile {
                proxy: proxy@,
                ca: ca@,
            },
            Action::SetUserEnv { proxy, ca } => ActionView::SetUserEnv { proxy: proxy@, ca: ca@ },
            Action::RemoveLegacyBlock => ActionView::RemoveLegacyBlock,
            Action::Broadcast => ActionView::Broadcast,
            Action::EnableAutostart { port } => ActionView::EnableAutostart { port: *port },
            Action::StopDaemon => ActionView::StopDaemon,
            Action::SpawnDaemon { port } => ActionView::SpawnDaemon { port: *port },
            Action::Report => ActionView::Report,
        }
    }
}

/// How an action went.
#[derive(Debug, PartialEq)]
pub enum Event {
    /// The free port that was found.
    Port(u16),
    /// The path of the CA's certificate.
    Ca(String),
    /// The profile that was written, where there is one, or the one that a block was removed from.
    Profile(Option<String>),
    /// The action is done.
    Done,
    /// The action failed, and the rest proceeds.
    Failed(String),
    /// The interceptor runs.
    Spawned(u32),
}

/// An event with its texts as sequences of characters.
pub enum EventView {
    Port(u16),
    Ca(Seq<char>),
    Profile(Option<Seq<char>>),
    Done,
    Failed(Seq<char>),
    Spawned(u32),
}

impl View for Event {
    type V = EventView;

    open spec fn view(&self) -> EventView {
        match self {
            Event::Port(p) => EventView::Port(*p),
            Event::Ca(s) => EventView::Ca(s@),
            Event::Profile(Some(s)) => EventView::Profile(Some(s@)),
            Event::Profile(None) => EventView::Profile(None),
            Event::Done => EventView::Done,
            Event::Failed(s) => EventView::Failed(s@),
            Event::Spawned(p) => EventView::Spawned(*p),
        }
    }
}

/// The step that a run stands at.
#[derive(Debug, Clone, Copy, PartialEq, Eq, Structural)]
pub enum Stage {
    Port,
    Ca,
    Env,
    Legacy,
    Broadcast,
    Autostart,
    Stop,
    Spawn,
    Report,
}

// ---------------------------------------------------------------------------------------------
// The model
// ---------------------------------------------------------------------------------------------

/// The state of a run.
#[verifier::ext_equal]
pub struct RunView {
    pub platform: Platform,
    /// The port that was pinned when the run began.
    pub pinned: Option<u16>,
    pub running: Option<Daemon>,
    pub stage: Stage,
    pub port: u16,
    pub ca: Seq<char>,
    pub rows: Seq<RowView>,
    /// Whether the user has to set the environment by hand.
    pub manual_env: bool,
    pub daemon_ok: bool,
}

/// A run at its beginning: a pinned port is settled at once.
pub open spec fn started(
    platform: Platform,
    requested: Option<u16>,
    running: Option<Daemon>,
    configured: Option<u16>,
) -> RunView {
    let running_port = match running {
        Some(d) => Some(d.port),
        None => None,
    };
    let pinned = ports::pinned(requested, running_port, configured);
    RunView {
        platform,
        pinned,
        running,
        stage: if pinned is Some {
            Stage::Ca
        } else {
            Stage::Port
        },
        port: match pinned {
            Some(p) => p,
            None => ports::DEFAULT_PORT,
        },
        ca: Seq::empty(),
        rows: Seq::empty(),
        manual_env: false,
        daemon_ok: false,
    }
}

/// What a run asks for next.
pub open spec fn wanted(r: RunView) -> ActionView {
    let proxy = ports::proxy_url_view(r.port);
    match r.stage {
        Stage::Port => ActionView::FindPort { start: ports::DEFAULT_PORT },
        Stage::Ca => ActionView::EnsureCa,
        Stage::Env => if r.platform == Platform::Windows {
            ActionView::SetUserEnv { proxy, ca: r.ca }
        } else {
            ActionView::WriteProfile { proxy, ca: r.ca }
        },
        Stage::Legacy => ActionView::RemoveLegacyBlock,
        Stage::Broadcast => ActionView::Broadcast,
        Stage::Autostart => ActionView::EnableAutostart { port: r.port },
        Stage::Stop => ActionView::StopDaemon,
        Stage::Spawn => ActionView::SpawnDaemon { port: r.port },
        Stage::Report => ActionView::Report,
    }
}

/// Whether the interceptor that runs already serves the settled port.
pub open spec fn serves(r: RunView) -> bool {
    r.running is Some && r.running->0.port == r.port
}

/// A run once it is known how the entry at login went: an interceptor that serves the settled port is
/// left alone, any other is stopped and started anew.
pub open spec fn after_autostart(r: RunView, row: RowView) -> RunView {
    if serves(r) {
        RunView {
            stage: Stage::Report,
            rows: r.rows.push(row).push(
                report::row_view(
                    Mark::Good,
                    "Interceptor"@,
                    "already running · pid "@ + text::decimal(r.running->0.pid as nat)
                        + " · port "@ + text::decimal(r.port as nat),
                ),
            ),
            daemon_ok: true,
            ..r
        }
    } else {
        RunView { stage: Stage::Stop, rows: r.rows.push(row), ..r }
    }
}

/// A run after an event. An event that does not answer what was asked changes nothing.
pub open spec fn after(r: RunView, e: EventView) -> RunView {
    match (r.stage, e) {
        (Stage::Port, EventView::Port(p)) => RunView { stage: Stage::Ca, port: p, ..r },
        (Stage::Ca, EventView::Ca(ca)) => RunView {
            stage: Stage::Env,
            ca,
            rows: r.rows.push(report::row_view(Mark::Good, "Local CA"@, ca)),
            ..r
        },
        (Stage::Env, EventView::Done) => if r.platform == Platform::Windows {
            RunView {
                stage: Stage::Legacy,
                rows: r.rows.push(
                    report::row_view(
                        Mark::Good,
                        "Environment"@,
                        "HKCU\\Environment — HTTPS_PROXY + CA trust"@,
                    ),
                ),
                ..r
            }
        } else {
            r
        },
        (Stage::Env, EventView::Profile(Some(path))) => if r.platform == Platform::Windows {
            r
        } else {
            RunView {
                stage: Stage::Autostart,
                rows: r.rows.push(
                    report::row_view(
                        Mark::Good,
                        "Profile"@,
                        path + " — HTTPS_PROXY + CA trust"@,
                    ),
                ),
                ..r
            }
        },
        (Stage::Env, EventView::Profile(None)) => if r.platform == Platform::Windows {
            r
        } else {
            RunView {
                stage: Stage::Autostart,
                rows: r.rows.push(
                    report::row_view(
                        Mark::Note,
                        "Profile"@,
                        "no shell profile found — set the env yourself (below)"@,
                    ),
                ),
                manual_env: true,
                ..r
            }
        },
        (Stage::Env, EventView::Failed(why)) => if r.platform == Platform::Windows {
            RunView {
                stage: Stage::Legacy,
                rows: r.rows.push(
                    report::row_view(Mark::Warn, "Environment"@, "not set: "@ + why),
                ),
                manual_env: true,
                ..r
            }
        } else {
            RunView {
                stage: Stage::Autostart,
                rows: r.rows.push(
                    report::row_view(Mark::Warn, "Profile"@, "not written: "@ + why),
                ),
                manual_env: true,
                ..r
            }
        },
        (Stage::Legacy, EventView::Profile(Some(path))) => RunView {
            stage: Stage::Broadcast,
            rows: r.rows.push(
                report::row_view(
                    Mark::Good,
                    "Profile"@,
                    "legacy env block removed from "@ + path,
                ),
            ),
            ..r
        },
        (Stage::Legacy, EventView::Profile(None)) => RunView { stage: Stage::Broadcast, ..r },
        (Stage::Legacy, EventView::Failed(why)) => RunView {
            stage: Stage::Broadcast,
            rows: r.rows.push(
                report::row_view(Mark::Warn, "Profile"@, "legacy env block not removed: "@ + why),
            ),
            ..r
        },
        (Stage::Broadcast, EventView::Done) => RunView { stage: Stage::Autostart, ..r },
        (Stage::Autostart, EventView::Done) => after_autostart(
            r,
            report::row_view(Mark::Good, "Autostart"@, "runs at login"@),
        ),
        (Stage::Autostart, EventView::Failed(why)) => after_autostart(
            r,
            report::row_view(Mark::Warn, "Autostart"@, "not enabled: "@ + why),
        ),
        (Stage::Stop, EventView::Done) => RunView { stage: Stage::Spawn, ..r },
        (Stage::Stop, EventView::Failed(why)) => RunView {
            stage: Stage::Spawn,
            rows: r.rows.push(
                report::row_view(Mark::Warn, "Interceptor"@, "could not stop: "@ + why),
            ),
            ..r
        },
        (Stage::Spawn, EventView::Spawned(pid)) => RunView {
            stage: Stage::Report,
            rows: r.rows.push(
                report::row_view(
                    Mark::Good,
                    "Interceptor"@,
                    "running · pid "@ + text::decimal(pid as nat) + " · port "@ + text::decimal(
                        r.port as nat,
                    ),
                ),
            ),
            daemon_ok: true,
            ..r
        },
        (Stage::Spawn, EventView::Failed(why)) => RunView {
            stage: Stage::Report,
            rows: r.rows.push(
                report::row_view(Mark::Warn, "Interceptor"@, "not started: "@ + why),
            ),
            ..r
        },
        _ => r,
    }
}

/// What is said of the port, where one had to be found that nobody asked for.
pub open spec fn port_note_view(r: RunView) -> Option<Seq<char>> {
    if r.pinned is None && r.port != ports::DEFAULT_PORT {
        Some(
            "Port "@ + text::decimal(ports::DEFAULT_PORT as nat) + " busy — using "@
                + text::decimal(r.port as nat) + "."@,
        )
    } else {
        None
    }
}

/// The lines for a user who has to set the environment by hand.
pub open spec fn manual_lines(r: RunView) -> Seq<LineView> {
    if r.manual_env && r.platform != Platform::Windows {
        seq![
            LineView::Blank,
            LineView::Plain("Export these in your shell yourself:"@),
            LineView::Plain("    export HTTPS_PROXY="@ + ports::proxy_url_view(r.port)),
            LineView::Plain("    export NODE_EXTRA_CA_CERTS="@ + r.ca),
        ]
    } else {
        Seq::empty()
    }
}

/// The lines below the panel.
pub open spec fn closing_view(r: RunView) -> Seq<LineView> {
    let windows = r.platform == Platform::Windows;
    let shell = if windows {
        "  1. open a new terminal (any shell — the env is set for your whole user)"@
    } else {
        "  1. open a new terminal (or re-source your shell profile)"@
    };
    let check = if windows {
        "  2. verify it took:  echo $env:HTTPS_PROXY  →  "@
    } else {
        "  2. verify it took:  echo $HTTPS_PROXY  →  "@
    };
    manual_lines(r) + seq![
        LineView::Blank,
        if r.daemon_ok {
            LineView::Bold("Done — the interceptor is running."@)
        } else {
            LineView::Warning(
                "Setup finished, but the interceptor is not running — see above."@,
            )
        },
        LineView::Plain(
            "Only programs started after this pick up the proxy env; already-running\ntools (your editor, coding agents, open terminals) keep their old environment\nuntil relaunched. To route one through llmtrim:"@,
        ),
        LineView::Blank,
        LineView::Plain(shell),
        LineView::Plain(check + ports::proxy_url_view(r.port)),
        LineView::Plain("  3. launch your tool from that shell"@),
        LineView::Blank,
        LineView::Hint("watch savings"@, "llmtrim status"@),
        if windows {
            LineView::Note(
                "For GUI apps that pin their own trust store, trust the CA system-wide: certutil -addstore -user Root \""@
                    + r.ca + "\" — or see llmtrim ca."@,
            )
        } else {
            LineView::Note(
                "GUI apps that ignore the shell env need the CA trusted system-wide — see llmtrim ca."@,
            )
        },
    ]
}

// ---------------------------------------------------------------------------------------------
// The run
// ---------------------------------------------------------------------------------------------

/// A run of `setup`.
#[derive(Debug)]
pub struct SetupRun {
    platform: Platform,
    pinned: Option<u16>,
    running: Option<Daemon>,
    stage: Stage,
    port: u16,
    ca: String,
    rows: Vec<Row>,
    manual_env: bool,
    daemon_ok: bool,
}

impl View for SetupRun {
    type V = RunView;

    closed spec fn view(&self) -> RunView {
        RunView {
            platform: self.platform,
            pinned: self.pinned,
            running: self.running,
            stage: self.stage,
            port: self.port,
            ca: self.ca@,
            rows: report::rows_view(self.rows@),
            manual_env: self.manual_env,
            daemon_ok: self.daemon_ok,
        }
    }
}

impl SetupRun {
    /// Begins a run: `requested` is the port that the user asked for, `running` the live interceptor,
    /// `configured` the port that the environment is wired to.
    pub fn new(
        platform: Platform,
        requested: Option<u16>,
        running: Option<Daemon>,
        configured: Option<u16>,
    ) -> (r: SetupRun)
        ensures
            r@ == started(platform, requested, running, configured),
    {
        let running_port = match running {
            Some(d) => Some(d.port),
            None => None,
        };
        let pinned = ports::pinned_port(requested, running_port, configured);
        let (stage, port) = match ports::choose_port(requested, running_port, configured) {
            PortChoice::Use(p) => (Stage::Ca, p),
            PortChoice::ScanFrom(start) => (Stage::Port, start),
        };
        let r = SetupRun {
            platform,
            pinned,
            running,
            stage,
            port,
            ca: String::new(),
            rows: Vec::new(),
            manual_env: false,
            daemon_ok: false,
        };
        assert(r@ =~= started(platform, requested, running, configured));
        r
    }

    /// What is to be done next.
    pub fn action(&self) -> (r: Action)
        ensures
            r@ == wanted(self@),
    {
        match self.stage {
            Stage::Port => Action::FindPort { start: ports::DEFAULT_PORT },
            Stage::Ca => Action::EnsureCa,
            Stage::Env => {
                let proxy = ports::proxy_url(self.port);
                let ca = self.ca.clone();
                if self.platform == Platform::Windows {
                    Action::SetUserEnv { proxy, ca }
                } else {
                    Action::WriteProfile { proxy, ca }
                }
            },
            Stage::Legacy => Action::RemoveLegacyBlock,
            Stage::Broadcast => Action::Broadcast,
            Stage::Autostart => Action::EnableAutostart { port: self.port },
            Stage::Stop => Action::StopDaemon,
            Stage::Spawn => Action::SpawnDaemon { port: self.port },
            Stage::Report => Action::Report,
        }
    }

    /// Takes how the entry at login went, and looks at the interceptor.
    fn reconcile(&mut self, mark: Mark, how: &str)
        ensures
            final(self)@ == after_autostart(
                old(self)@,
                report::row_view(mark, "Autostart"@, how@),
            ),
    {
        report::add_row(&mut self.rows, mark, "Autostart", how);
        let ghost row = report::row_view(mark, "Autostart"@, how@);
        match self.running {
            Some(d) => {
                if d.port == self.port {
                    let how = report::join4(
                        "already running · pid ",
                        text::decimal_text(d.pid as u64).as_str(),
                        " · port ",
                        text::decimal_text(self.port as u64).as_str(),
                    );
                    report::add_row(&mut self.rows, Mark::Good, "Interceptor", how.as_str());
                    self.daemon_ok = true;
                    self.stage = Stage::Report;
                    assert(self@ =~= after_autostart(old(self)@, row));
                    return;
                }
            },
            None => {},
        }
        self.stage = Stage::Stop;
        assert(self@ =~= after_autostart(old(self)@, row));
    }

    /// Takes how the environment was wired.
    fn wired(&mut self, event: Event)
        requires
            old(self)@.stage == Stage::Env,
        ensures
            final(self)@ == after(old(self)@, event@),
    {
        let windows = self.platform == Platform::Windows;
        match event {
            Event::Done => {
                if windows {
                    report::add_row(
                        &mut self.rows,
                        Mark::Good,
                        "Environment",
                        "HKCU\\Environment — HTTPS_PROXY + CA trust",
                    );
                    self.stage = Stage::Legacy;
                }
            },
            Event::Profile(Some(path)) => {
                if !windows {
                    let how = report::join2(path.as_str(), " — HTTPS_PROXY + CA trust");
                    report::add_row(&mut self.rows, Mark::Good, "Profile", how.as_str());
                    self.stage = Stage::Autostart;
                }
            },
            Event::Profile(None) => {
                if !windows {
                    report::add_row(
                        &mut self.rows,
                        Mark::Note,
                        "Profile",
                        "no shell profile found — set the env yourself (below)",
                    );
                    self.manual_env = true;
                    self.stage = Stage::Autostart;
                }
            },
            Event::Failed(why) => {
                if windows {
                    let how = report::join2("not set: ", why.as_str());
                    report::add_row(&mut self.rows, Mark::Warn, "Environment", how.as_str());
                    self.stage = Stage::Legacy;
                } else {
                    let how = report::join2("not written: ", why.as_str());
                    report::add_row(&mut self.rows, Mark::Warn, "Profile", how.as_str());
                    self.stage = Stage::Autostart;
                }
                self.manual_env = true;
            },
            _ => {},
        }
        assert(self@ =~= after(old(self)@, event@));
    }

    /// Takes how the interceptor started.
    fn spawned(&mut self, event: Event)
        requires
            old(self)@.stage == Stage::Spawn,
        ensures
            final(self)@ == after(old(self)@, event@),
    {
        match event {
            Event::Spawned(pid) => {
                let how = report::join4(
                    "running · pid ",
                    text::decimal_text(pid as u64).as_str(),
                    " · port ",
                    text::decimal_text(self.port as u64).as_str(),
                );
                report::add_row(&mut self.rows, Mark::Good, "Interceptor", how.as_str());
                self.daemon_ok = true;
                self.stage = Stage::Report;
            },
            Event::Failed(why) => {
                let how = report::join2("not started: ", why.as_str());
                report::add_row(&mut self.rows, Mark::Warn, "Interceptor", how.as_str());
                self.stage = Stage::Report;
            },
            _ => {},
        }
        assert(self@ =~= after(old(self)@, event@));
    }

    /// Takes how the last action went.
    pub fn take(&mut self, event: Event)
        ensures
            final(self)@ == after(old(self)@, event@),
    {
        match self.stage {
            Stage::Port => {
                if let Event::Port(p) = event {
                    self.port = p;
                    self.stage = Stage::Ca;
                }
                assert(self@ =~= after(old(self)@, event@));
            },
            Stage::Ca => {
                if let Event::Ca(ca) = event {
                    report::add_row(&mut self.rows, Mark::Good, "Local CA", ca.as_str());
                    self.ca = ca;
                    self.stage = Stage::Env;
                }
                assert(self@ =~= after(old(self)@, event@));
            },
            Stage::Env => self.wired(event),
            Stage::Legacy => {
                match event {
                    Event::Profile(Some(path)) => {
                        let how = report::join2("legacy env block removed from ", path.as_str());
                        report::add_row(&mut self.rows, Mark::Good, "Profile", how.as_str());
                        self.stage = Stage::Broadcast;
                    },
                    Event::Profile(None) => {
                        self.stage = Stage::Broadcast;
                    },
                    Event::Failed(why) => {
                        let how = report::join2("legacy env block not removed: ", why.as_str());
                        report::add_row(&mut self.rows, Mark::Warn, "Profile", how.as_str());
                        self.stage = Stage::Broadcast;
                    },
                    _ => {},
                }
                assert(self@ =~= after(old(self)@, event@));
            },
            Stage::Broadcast => {
                if let Event::Done = event {
                    self.stage = Stage::Autostart;
                }
                assert(self@ =~= after(old(self)@, event@));
            },
            Stage::Autostart => {
                match event {
                    Event::Done => self.reconcile(Mark::Good, "runs at login"),
                    Event::Failed(why) => {
                        let how = report::join2("not enabled: ", why.as_str());
                        self.reconcile(Mark::Warn, how.as_str());
                    },
                    _ => {},
                }
            },
            Stage::Stop => {
                match event {
                    Event::Done => {
                        self.stage = Stage::Spawn;
                    },
                    Event::Failed(why) => {
                        let how = report::join2("could not stop: ", why.as_str());
                        report::add_row(&mut self.rows, Mark::Warn, "Interceptor", how.as_str());
                        self.stage = Stage::Spawn;
                    },
                    _ => {},
                }
                assert(self@ =~= after(old(self)@, event@));
            },
            Stage::Spawn => self.spawned(event),
            Stage::Report => {},
        }
    }

    /// What is said of the port, where one had to be found that nobody asked for.
    pub fn port_note(&self) -> (r: Option<String>)
        ensures
            match r {
                Some(s) => port_note_view(self@) == Some(s@),
                None => port_note_view(self@) is None,
            },
    {
        if self.pinned.is_none() && self.port != ports::DEFAULT_PORT {
            let mut out = report::join4(
                "Port ",
                text::decimal_text(ports::DEFAULT_PORT as u64).as_str(),
                " busy — using ",
                text::decimal_text(self.port as u64).as_str(),
            );
            out.append(".");
            Some(out)
        } else {
            None
        }
    }

    /// The rows of the panel.
    pub fn rows(&self) -> (r: &Vec<Row>)
        ensures
            report::rows_view(r@) == self@.rows,
    {
        &self.rows
    }

    /// The lines below the panel.
    pub fn closing(&self) -> (r: Vec<Line>)
        ensures
            report::lines_view(r@) == closing_view(self@),
    {
        let windows = self.platform == Platform::Windows;
        let proxy = ports::proxy_url(self.port);
        let mut lines: Vec<Line> = Vec::new();
        assert(report::lines_view(lines@) =~= Seq::<LineView>::empty());
        if self.manual_env && !windows {
            report::add_line(&mut lines, Line::Blank);
            report::add_line(
                &mut lines,
                Line::Plain("Export these in your shell yourself:".to_owned()),
            );
            report::add_line(
                &mut lines,
                Line::Plain(report::join2("    export HTTPS_PROXY=", proxy.as_str())),
            );
            report::add_line(
                &mut lines,
                Line::Plain(report::join2("    export NODE_EXTRA_CA_CERTS=", self.ca.as_str())),
            );
        }
        assert(report::lines_view(lines@) =~= manual_lines(self@));
        report::add_line(&mut lines, Line::Blank);
        report::add_line(
            &mut lines,
            if self.daemon_ok {
                Line::Bold("Done — the interceptor is running.".to_owned())
            } else {
                Line::Warning(
                    "Setup finished, but the interceptor is not running — see above.".to_owned(),
                )
            },
        );
        report::add_line(
            &mut lines,
            Line::Plain(
                "Only programs started after this pick up the proxy env; already-running\ntools (your editor, coding agents, open terminals) keep their old environment\nuntil relaunched. To route one through llmtrim:".to_owned(),
            ),
        );
        report::add_line(&mut lines, Line::Blank);
        let shell = if windows {
            "  1. open a new terminal (any shell — the env is set for your whole user)"
        } else {
            "  1. open a new terminal (or re-source your shell profile)"
        };
        report::add_line(&mut lines, Line::Plain(shell.to_owned()));
        let check = if windows {
            "  2. verify it took:  echo $env:HTTPS_PROXY  →  "
        } else {
            "  2. verify it took:  echo $HTTPS_PROXY  →  "
        };
        report::add_line(&mut lines, Line::Plain(report::join2(check, proxy.as_str())));
        report::add_line(
            &mut lines,
            Line::Plain("  3. launch your tool from that shell".to_owned()),
        );
        report::add_line(&mut lines, Line::Blank);
        report::add_line(
            &mut lines,
            Line::Hint("watch savings".to_owned(), "llmtrim status".to_owned()),
        );
        report::add_line(
            &mut lines,
            if windows {
                Line::Note(
                    report::join3(
                        "For GUI apps that pin their own trust store, trust the CA system-wide: certutil -addstore -user Root \"",
                        self.ca.as_str(),
                        "\" — or see llmtrim ca.",
                    ),
                )
            } else {
                Line::Note(
                    "GUI apps that ignore the shell env need the CA trusted system-wide — see llmtrim ca.".to_owned(),
                )
            },
        );
        assert(report::lines_view(lines@) =~= closing_view(self@));
        lines
    }
}

} // verus!
