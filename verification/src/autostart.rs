//! Running the interceptor at login.
//!
//! On Windows there is one entry under the user's `Run` key; every other place where an entry could
//! be left over is cleaned, so that login starts one interceptor and not two. Elsewhere a launcher
//! keeps the entry.
use crate::text;
use vstd::prelude::*;

verus! {

pub const RUN_KEY: &'static str = "Software\\Microsoft\\Windows\\CurrentVersion\\Run";

pub const STARTUP_APPROVED_KEY: &'static str =
    "Software\\Microsoft\\Windows\\CurrentVersion\\Explorer\\StartupApproved\\Run";

/// The name of the entry.
pub const VALUE_NAME: &'static str = "llmtrim";

/// A root of the registry.
#[derive(Debug, Clone, Copy, PartialEq, Eq, Structural)]
pub enum Hive {
    CurrentUser,
    LocalMachine,
}

/// A key that can hold an entry.
#[derive(Debug, Clone, Copy, PartialEq, Eq, Structural)]
pub enum Key {
    Run,
    StartupApproved,
}

/// A place where an entry can stand.
#[derive(Debug, Clone, Copy, PartialEq, Eq, Structural)]
pub struct Place {
    pub hive: Hive,
    pub key: Key,
}

/// The path of a key.
pub open spec fn key_path_view(key: Key) -> Seq<char> {
    match key {
        Key::Run => RUN_KEY@,
        Key::StartupApproved => STARTUP_APPROVED_KEY@,
    }
}

/// The path of a key.
pub fn key_path(key: Key) -> (r: &'static str)
    ensures
        r@ == key_path_view(key),
{
    match key {
        Key::Run => RUN_KEY,
        Key::StartupApproved => STARTUP_APPROVED_KEY,
    }
}

/// Both keys are of the user's programs at login; the one that lists approvals says so.
pub proof fn law_keys_have_their_path(key: Key)
    ensures
        text::ends_with(key_path_view(key), "\\Run"@),
        text::starts_with(key_path_view(key), "Software\\Microsoft\\Windows\\CurrentVersion\\"@),
        key == Key::StartupApproved <==> text::ends_with(
            key_path_view(key),
            "\\StartupApproved\\Run"@,
        ),
{
    reveal_strlit("\\Run");
    reveal_strlit("\\StartupApproved\\Run");
    reveal_strlit("Software\\Microsoft\\Windows\\CurrentVersion\\");
    reveal_strlit("Software\\Microsoft\\Windows\\CurrentVersion\\Run");
    reveal_strlit("Software\\Microsoft\\Windows\\CurrentVersion\\Explorer\\StartupApproved\\Run");
    let p = key_path_view(key);
    let n = p.len() as int;
    assert(p.subrange(n - 4, n) =~= "\\Run"@);
    assert(p.subrange(0, 42) =~= "Software\\Microsoft\\Windows\\CurrentVersion\\"@);
    if key == Key::StartupApproved {
        assert(p.subrange(n - 20, n) =~= "\\StartupApproved\\Run"@);
    } else {
        let e = p.subrange(n - 20, n);
        assert(e[1] == p[n - 19]);
        assert("\\StartupApproved\\Run"@[1] == 'S');
    }
}

/// The one place where the entry belongs.
pub open spec fn canonical() -> Place {
    Place { hive: Hive::CurrentUser, key: Key::Run }
}

/// The places where entries of an earlier build can be left over.
pub open spec fn legacy_places() -> Seq<Place> {
    seq![
        Place { hive: Hive::LocalMachine, key: Key::Run },
        Place { hive: Hive::CurrentUser, key: Key::StartupApproved },
        Place { hive: Hive::LocalMachine, key: Key::StartupApproved },
    ]
}

/// Every place where an entry can stand.
pub open spec fn every_place() -> Seq<Place> {
    seq![canonical()] + legacy_places()
}

/// The places to clean when the entry is there: those of earlier builds.
pub fn purge_legacy_autostart() -> (r: Vec<Place>)
    ensures
        r@ == legacy_places(),
{
    let mut places: Vec<Place> = Vec::new();
    places.push(Place { hive: Hive::LocalMachine, key: Key::Run });
    places.push(Place { hive: Hive::CurrentUser, key: Key::StartupApproved });
    places.push(Place { hive: Hive::LocalMachine, key: Key::StartupApproved });
    assert(places@ =~= legacy_places());
    places
}

/// The places to clean when no entry is to be left: all of them.
pub fn remove_autostart_everywhere() -> (r: Vec<Place>)
    ensures
        r@ == every_place(),
{
    let mut places: Vec<Place> = Vec::new();
    places.push(Place { hive: Hive::CurrentUser, key: Key::Run });
    places.push(Place { hive: Hive::LocalMachine, key: Key::Run });
    places.push(Place { hive: Hive::CurrentUser, key: Key::StartupApproved });
    places.push(Place { hive: Hive::LocalMachine, key: Key::StartupApproved });
    assert(places@ =~= every_place());
    places
}

/// Enabling cleans every place but the one where the entry belongs, and disabling cleans every place:
/// login starts one interceptor after the one, and none after the other.
pub proof fn law_one_entry_or_none(place: Place)
    ensures
        legacy_places().contains(place) <==> place != canonical(),
        every_place().contains(place),
{
    let l = legacy_places();
    let e = every_place();
    assert(l[0] == (Place { hive: Hive::LocalMachine, key: Key::Run }));
    assert(l[1] == (Place { hive: Hive::CurrentUser, key: Key::StartupApproved }));
    assert(l[2] == (Place { hive: Hive::LocalMachine, key: Key::StartupApproved }));
    assert(e[0] == canonical());
    assert(e[1] == l[0]);
    assert(e[2] == l[1]);
    assert(e[3] == l[2]);
}

/// The arguments with which the interceptor is started at login.
pub open spec fn arguments_view(port: u16) -> Seq<Seq<char>> {
    seq!["serve"@, "--port"@, text::decimal(port as nat), "--supervised"@]
}

/// The command of the registry entry.
pub open spec fn command_view(exe: Seq<char>, port: u16) -> Seq<char> {
    "\""@ + exe + "\" serve --port "@ + text::decimal(port as nat) + " --supervised"@
}

/// What to do so that the interceptor runs at login, or does not.
#[derive(Debug, PartialEq)]
pub enum Plan {
    /// Set the registry entry to the command, where there is one, and clean the places.
    Registry { command: Option<String>, clean: Vec<Place> },
    /// Have the launcher enable, or disable, the program with the arguments.
    Launcher { app_name: String, app_path: String, args: Vec<String>, enable: bool },
}

/// A plan with its texts as sequences of characters.
pub enum PlanView {
    Registry { command: Option<Seq<char>>, clean: Seq<Place> },
    Launcher { app_name: Seq<char>, app_path: Seq<char>, args: Seq<Seq<char>>, enable: bool },
}

impl View for Plan {
    type V = PlanView;

    open spec fn view(&self) -> PlanView {
        match self {
            Plan::Registry { command: Some(c), clean } => PlanView::Registry {
                command: Some(c@),
                clean: clean@,
            },
            Plan::Registry { command: None, clean } => PlanView::Registry {
                command: None,
                clean: clean@,
            },
            Plan::Launcher { app_name, app_path, args, enable } => PlanView::Launcher {
                app_name: app_name@,
                app_path: app_path@,
                args: text::texts(args@),
                enable: *enable,
            },
        }
    }
}

/// What to do so that the program at `exe` serves `port` from login on, or does not.
pub open spec fn planned(enable: bool, port: u16, exe: Seq<char>, windows: bool) -> PlanView {
    if windows {
        if enable {
            PlanView::Registry { command: Some(command_view(exe, port)), clean: legacy_places() }
        } else {
            PlanView::Registry { command: None, clean: every_place() }
        }
    } else {
        PlanView::Launcher {
            app_name: VALUE_NAME@,
            app_path: exe,
            args: arguments_view(port),
            enable,
        }
    }
}

fn arguments(port: u16) -> (r: Vec<String>)
    ensures
        text::texts(r@) == arguments_view(port),
{
    let mut args: Vec<String> = Vec::new();
    args.push("serve".to_owned());
    args.push("--port".to_owned());
    args.push(text::decimal_text(port as u64));
    args.push("--supervised".to_owned());
    assert(text::texts(args@) =~= arguments_view(port));
    args
}

fn command(exe: &str, port: u16) -> (r: String)
    ensures
        r@ == command_view(exe@, port),
{
    let mut out = "\"".to_owned();
    out.append(exe);
    out.append("\" serve --port ");
    out.append(text::decimal_text(port as u64).as_str());
    out.append(" --supervised");
    out
}

/// What to do so that the program at `exe` serves `port` from login on, or does not.
pub fn configure(enable: bool, port: u16, exe: &str, windows: bool) -> (r: Plan)
    ensures
        r@ == planned(enable, port, exe@, windows),
{
    if windows {
        if enable {
            Plan::Registry { command: Some(command(exe, port)), clean: purge_legacy_autostart() }
        } else {
            Plan::Registry { command: None, clean: remove_autostart_everywhere() }
        }
    } else {
        Plan::Launcher {
            app_name: VALUE_NAME.to_owned(),
            app_path: exe.to_owned(),
            args: arguments(port),
            enable,
        }
    }
}

// ---------------------------------------------------------------------------------------------
// What is left at login
// ---------------------------------------------------------------------------------------------

/// A program with its arguments.
#[verifier::ext_equal]
pub struct Login {
    pub program: Seq<char>,
    pub args: Seq<Seq<char>>,
}

/// Everything that starts at login, by name: the registry's commands at each place, and what the
/// launcher keeps.
#[verifier::ext_equal]
pub struct Logins {
    pub registry: Map<(Place, Seq<char>), Seq<char>>,
    pub launcher: Map<Seq<char>, Login>,
}

/// The arguments, each after a space.
pub open spec fn spaced(args: Seq<Seq<char>>) -> Seq<char>
    decreases args.len(),
{
    if args.len() == 0 {
        Seq::empty()
    } else {
        spaced(args.drop_last()) + " "@ + args.last()
    }
}

/// The command that runs a program: the program in quotes, and then its arguments.
pub open spec fn spelled(l: Login) -> Seq<char> {
    "\""@ + l.program + "\""@ + spaced(l.args)
}

/// What starts at login once a plan has been carried out, where nothing refuses it: the registry entry
/// is set, and what is to be cleaned is gone.
pub open spec fn carried_out(plan: PlanView, s: Logins) -> Logins {
    match plan {
        PlanView::Registry { command, clean } => {
            let set = match command {
                Some(c) => s.registry.insert((canonical(), VALUE_NAME@), c),
                None => s.registry,
            };
            Logins {
                registry: set.remove_keys(
                    Set::new(
                        |k: (Place, Seq<char>)| clean.contains(k.0) && k.1 == VALUE_NAME@,
                    ),
                ),
                ..s
            }
        },
        PlanView::Launcher { app_name, app_path, args, enable } => Logins {
            launcher: if enable {
                s.launcher.insert(app_name, Login { program: app_path, args })
            } else {
                s.launcher.remove(app_name)
            },
            ..s
        },
    }
}

/// One entry of the interceptor is there, and it runs `l`.
pub open spec fn starts_once(s: Logins, windows: bool, l: Login) -> bool {
    if windows {
        &&& forall|place: Place| #[trigger]
            s.registry.dom().contains((place, VALUE_NAME@)) <==> place == canonical()
        &&& s.registry[(canonical(), VALUE_NAME@)] == spelled(l)
    } else {
        s.launcher.dom().contains(VALUE_NAME@) && s.launcher[VALUE_NAME@] == l
    }
}

/// No entry of the interceptor is there.
pub open spec fn starts_never(s: Logins, windows: bool) -> bool {
    if windows {
        forall|place: Place| !#[trigger] s.registry.dom().contains((place, VALUE_NAME@))
    } else {
        !s.launcher.dom().contains(VALUE_NAME@)
    }
}

/// Nothing that has another name is touched.
pub open spec fn others_stay(before: Logins, after: Logins) -> bool {
    &&& forall|place: Place, name: Seq<char>|
        name != VALUE_NAME@ ==> (#[trigger] after.registry.dom().contains((place, name))
            <==> before.registry.dom().contains((place, name)))
    &&& forall|place: Place, name: Seq<char>|
        name != VALUE_NAME@ && before.registry.dom().contains((place, name))
            ==> #[trigger] after.registry[(place, name)] == before.registry[(place, name)]
    &&& after.launcher.remove(VALUE_NAME@) == before.launcher.remove(VALUE_NAME@)
}

/// The command of the registry entry runs the program with the arguments that a launcher would get.
proof fn lemma_command_is_spelled(exe: Seq<char>, port: u16)
    ensures
        command_view(exe, port) == spelled(Login { program: exe, args: arguments_view(port) }),
{
    let args = arguments_view(port);
    let digits = text::decimal(port as nat);
    reveal_strlit(" ");
    reveal_strlit("\"");
    reveal_strlit("serve");
    reveal_strlit("--port");
    reveal_strlit("--supervised");
    reveal_strlit("\" serve --port ");
    reveal_strlit(" --supervised");
    assert("\" serve --port "@ =~= "\""@ + " "@ + "serve"@ + " "@ + "--port"@ + " "@);
    assert(" --supervised"@ =~= " "@ + "--supervised"@);
    assert(args.drop_last() =~= seq!["serve"@, "--port"@, digits]);
    assert(args.drop_last().drop_last() =~= seq!["serve"@, "--port"@]);
    assert(args.drop_last().drop_last().drop_last() =~= seq!["serve"@]);
    assert(args.drop_last().drop_last().drop_last().drop_last() =~= Seq::<Seq<char>>::empty());
    reveal_with_fuel(spaced, 5);
    assert(spaced(args) =~= " "@ + "serve"@ + " "@ + "--port"@ + " "@ + digits + " "@
        + "--supervised"@);
    assert(command_view(exe, port) =~= spelled(Login { program: exe, args }));
}

/// Whatever started at login before: after enabling there is one entry of the interceptor, and it runs
/// the program with `serve --port` and the port first. After disabling there is none, whatever the
/// port. Entries of other programs stay as they are.
pub proof fn law_login_starts_one_or_none(
    s: Logins,
    p: u16,
    q: u16,
    exe: Seq<char>,
    other: Seq<char>,
    windows: bool,
)
    ensures
        ({
            let on = carried_out(planned(true, p, exe, windows), s);
            let off = carried_out(planned(false, q, other, windows), s);
            &&& starts_once(on, windows, Login { program: exe, args: arguments_view(p) })
            &&& starts_never(off, windows)
            &&& others_stay(s, on)
            &&& others_stay(s, off)
        }),
        arguments_view(p).take(3) == seq!["serve"@, "--port"@, text::decimal(p as nat)],
        arguments_view(p).skip(3) == seq!["--supervised"@],
{
    let on = carried_out(planned(true, p, exe, windows), s);
    let off = carried_out(planned(false, q, other, windows), s);
    lemma_command_is_spelled(exe, p);
    assert(arguments_view(p).take(3) =~= seq!["serve"@, "--port"@, text::decimal(p as nat)]);
    assert(arguments_view(p).skip(3) =~= seq!["--supervised"@]);
    assert forall|place: Place| legacy_places().contains(place) <==> place != canonical() by {
        law_one_entry_or_none(place);
    }
    assert forall|place: Place| every_place().contains(place) by {
        law_one_entry_or_none(place);
    }
    assert(on.launcher.remove(VALUE_NAME@) =~= s.launcher.remove(VALUE_NAME@));
    assert(off.launcher.remove(VALUE_NAME@) =~= s.launcher.remove(VALUE_NAME@));
}

// ---------------------------------------------------------------------------------------------
// Failures
// ---------------------------------------------------------------------------------------------

/// What the launcher could not do.
#[derive(Debug, Clone, Copy, PartialEq, Eq, Structural)]
pub enum LauncherStep {
    Configure,
    Enable,
    Disable,
}

/// The text of a failure of the launcher.
pub open spec fn launcher_error_view(step: LauncherStep, why: Seq<char>) -> Seq<char> {
    match step {
        LauncherStep::Configure => "failed to configure autostart: "@ + why,
        LauncherStep::Enable => "failed to enable autostart: "@ + why,
        LauncherStep::Disable => "failed to disable autostart: "@ + why,
    }
}

/// A failure tells which of the three steps failed, and ends with the reason.
pub proof fn law_failures_tell_step_and_reason(step: LauncherStep, why: Seq<char>)
    ensures
        text::ends_with(launcher_error_view(step, why), why),
        text::starts_with(
            launcher_error_view(step, why),
            match step {
                LauncherStep::Configure => "failed to configure "@,
                LauncherStep::Enable => "failed to enable "@,
                LauncherStep::Disable => "failed to disable "@,
            },
        ),
{
    reveal_strlit("failed to configure ");
    reveal_strlit("failed to enable ");
    reveal_strlit("failed to disable ");
    reveal_strlit("failed to configure autostart: ");
    reveal_strlit("failed to enable autostart: ");
    reveal_strlit("failed to disable autostart: ");
    let s = launcher_error_view(step, why);
    assert(s.subrange(s.len() - why.len(), s.len() as int) =~= why);
    match step {
        LauncherStep::Configure => {
            assert(s.subrange(0, 20) =~= "failed to configure "@);
        },
        LauncherStep::Enable => {
            assert(s.subrange(0, 17) =~= "failed to enable "@);
        },
        LauncherStep::Disable => {
            assert(s.subrange(0, 18) =~= "failed to disable "@);
        },
    }
}

/// The text of a failure of the launcher.
pub fn launcher_error(step: LauncherStep, why: &str) -> (r: String)
    ensures
        r@ == launcher_error_view(step, why@),
{
    let mut out = match step {
        LauncherStep::Configure => "failed to configure autostart: ".to_owned(),
        LauncherStep::Enable => "failed to enable autostart: ".to_owned(),
        LauncherStep::Disable => "failed to disable autostart: ".to_owned(),
    };
    out.append(why);
    out
}

} // verus!
