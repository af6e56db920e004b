use llmtrim::setup::path::{
    encode_utf16_nul, path_update, remove_bin_dir_from_path, removal_script, strip_path_entry,
    ValueKind,
};
use llmtrim::setup::ports::{
    choose_port, first_free_port, parse_proxy_port, pinned_port, proxy_url, resolve_port,
    NoFreePort, PortChoice, DEFAULT_PORT, SCAN_SPAN,
};
use llmtrim::setup::profile::{
    configured_port, env_block, has_block, powershell_profile, profile_file, profile_has_block, profile_target,
    strip_block, with_block, without_block, Syntax, BEGIN, END,
};
use llmtrim::setup::registry::{
    clear_user_env, env_keys, set_user_env, user_env_has_proxy, Deletion,
};
use llmtrim::setup::report::{Line, Mark, Platform, Row};
use llmtrim::setup::run::{self, Daemon, SetupRun};
use llmtrim::setup::uninstall::{self, UninstallRun};

#[test]
fn choose_port_precedence() {
    // Explicit `--port` always wins, even over a running daemon and a configured env.
    assert_eq!(choose_port(Some(9000), Some(8800), Some(8700)), PortChoice::Use(9000));
    // No explicit → reuse the running daemon's port (don't migrate a live proxy).
    assert_eq!(choose_port(None, Some(8800), Some(8700)), PortChoice::Use(8800));
    // No daemon → reuse what the env already points at, so re-running converges.
    assert_eq!(choose_port(None, None, Some(8700)), PortChoice::Use(8700));
    // Nothing pinned → scan from the default (the only case that probes for a free port).
    assert_eq!(choose_port(None, None, None), PortChoice::ScanFrom(DEFAULT_PORT));
}

#[test]
fn parse_proxy_port_reads_the_wired_port() {
    assert_eq!(parse_proxy_port("http://127.0.0.1:8787"), Some(8787));
    // Embedded in a real profile/registry line, with trailing content after the digits.
    assert_eq!(
        parse_proxy_port("export HTTPS_PROXY=\"http://127.0.0.1:9001\"\nexport X=1\n"),
        Some(9001)
    );
    assert_eq!(parse_proxy_port("no proxy here"), None);
    assert_eq!(parse_proxy_port("127.0.0.1:"), None); // present but portless
}

#[test]
fn strip_path_entry_removes_only_the_target() {
    let path = r"C:\Windows;C:\Users\u\AppData\Local\llmtrim\bin;C:\tools";
    let dir = r"C:\Users\u\AppData\Local\llmtrim\bin";
    assert_eq!(strip_path_entry(path, dir), r"C:\Windows;C:\tools");

    // Case- and trailing-slash-insensitive (Windows path semantics), order preserved.
    let messy = r"C:\a;c:\users\u\appdata\local\LLMTRIM\BIN\;C:\b";
    assert_eq!(strip_path_entry(messy, dir), r"C:\a;C:\b");

    // Absent → unchanged. Other entries (incl. pre-existing empties) are left as-is.
    assert_eq!(strip_path_entry(r"C:\a;C:\b", dir), r"C:\a;C:\b");
    // A leading-semicolon PATH (installer appended to an empty user PATH) collapses cleanly.
    assert_eq!(strip_path_entry(&format!(";{dir}"), dir), "");
}

#[test]
fn strip_block_removes_managed_section_only() {
    let input = format!("keep1\n{BEGIN}\nexport X=1\n{END}\nkeep2\n");
    let out = strip_block(&input);
    assert_eq!(out, "keep1\nkeep2\n");
}

#[test]
fn strip_block_is_noop_without_markers() {
    assert_eq!(strip_block("a\nb\n"), "a\nb\n");
}

#[test]
fn env_block_posix_uses_export() {
    let b = env_block("http://127.0.0.1:8787", "/home/u/ca.pem", Syntax::Posix);
    assert!(b.contains("export HTTPS_PROXY=\"http://127.0.0.1:8787\""));
    assert!(b.contains("export NODE_EXTRA_CA_CERTS=\"/home/u/ca.pem\""));
    assert!(b.starts_with(BEGIN) && b.trim_end().ends_with(END));
}

#[test]
fn env_block_powershell_uses_env_assignment() {
    let b = env_block("http://127.0.0.1:8787", "C:\\Users\\u\\ca.pem", Syntax::PowerShell);
    assert!(b.contains("$env:HTTPS_PROXY = \"http://127.0.0.1:8787\""));
    assert!(b.contains("$env:NODE_EXTRA_CA_CERTS = \"C:\\Users\\u\\ca.pem\""));
    assert!(!b.contains("export ")); // no posix syntax leaked in
}

#[test]
fn strip_block_reverses_powershell_block() {
    let withblock = format!("keep\n{}", env_block("p", "c", Syntax::PowerShell));
    assert_eq!(strip_block(&withblock), "keep\n");
}

#[test]
fn first_free_port_rejects_occupied_accepts_free() {
    let taken = 40123;
    assert_eq!(
        first_free_port(taken, 0, |p: u16| p != taken),
        None,
        "occupied port not rejected"
    );
    assert_eq!(
        first_free_port(taken, 0, |_p: u16| true),
        Some(taken),
        "free port not accepted"
    );
}

// ── Ports ───────────────────────────────────────────────────────────────────────

#[test]
fn scans_stop_at_the_last_port() {
    assert_eq!(first_free_port(65530, 64, |p: u16| p == 65535), Some(65535));
    assert_eq!(first_free_port(65530, 64, |_p: u16| false), None);
    assert_eq!(first_free_port(8787, 2, |p: u16| p >= 8789), Some(8789));
    assert_eq!(first_free_port(8787, 1, |p: u16| p >= 8789), None);
}

#[test]
fn a_scan_is_made_only_when_nothing_is_pinned() {
    assert_eq!(resolve_port(Some(9000), None, None, |_p: u16| false), Ok(9000));
    assert_eq!(resolve_port(None, None, None, |p: u16| p > 8790), Ok(8791));
    assert_eq!(pinned_port(None, Some(1), Some(2)), Some(1));
    assert_eq!(SCAN_SPAN, 64);
    let none = resolve_port(None, None, None, |_p: u16| false);
    assert_eq!(none, Err(NoFreePort { start: 8787, end: 8851 }));
    assert_eq!(none.unwrap_err().message(), "no free port in 8787..=8851");
}

#[test]
fn the_wired_port_is_read_back() {
    for port in [0u16, 7, 8787, 65535] {
        assert_eq!(parse_proxy_port(&proxy_url(port)), Some(port));
        let written = with_block("export A=1\n", &proxy_url(port), "/ca.pem", Syntax::Posix);
        assert_eq!(parse_proxy_port(&written), Some(port));
    }
    assert_eq!(proxy_url(8787), "http://127.0.0.1:8787");
    assert_eq!(parse_proxy_port("127.0.0.1:65536"), None);
    assert_eq!(parse_proxy_port("127.0.0.1:0080/"), Some(80));
    // A second address ends the first one's digits.
    assert_eq!(parse_proxy_port("127.0.0.1:87127.0.0.1:9"), Some(87));
}

// ── The profile ─────────────────────────────────────────────────────────────────

#[test]
fn posix_block_in_full() {
    assert_eq!(
        env_block("p", "c", Syntax::Posix),
        "# >>> llmtrim >>>\nexport HTTPS_PROXY=\"p\"\nexport HTTP_PROXY=\"p\"\n\
         export NODE_EXTRA_CA_CERTS=\"c\"\n# <<< llmtrim <<<\n"
    );
}

#[test]
fn blocks_are_replaced_and_not_stacked() {
    let once = with_block("a\nb", "p1", "c1", Syntax::Posix);
    assert_eq!(once, format!("a\nb\n{}", env_block("p1", "c1", Syntax::Posix)));
    let twice = with_block(&once, "p2", "c2", Syntax::PowerShell);
    assert_eq!(twice, format!("a\nb\n{}", env_block("p2", "c2", Syntax::PowerShell)));
    assert_eq!(strip_block(&twice), "a\nb\n");
    assert_eq!(strip_block(&strip_block(&twice)), strip_block(&twice));
}

#[test]
fn an_open_block_swallows_the_rest() {
    assert_eq!(strip_block(&format!("a\n  {BEGIN}\t\nb\n")), "a\n");
    assert_eq!(strip_block(&format!("a\n{END}\nb")), "a\nb\n");
    assert_eq!(strip_block("a\r\nb"), "a\nb\n");
    assert_eq!(strip_block(""), "");
}

#[test]
fn a_profile_without_a_block_is_left_alone() {
    assert_eq!(without_block("a\n"), None);
    assert_eq!(
        without_block(&format!("a\n{}", env_block("p", "c", Syntax::Posix))),
        Some("a\n".to_string())
    );
    assert!(has_block(BEGIN) && !has_block(END));
}

#[test]
fn profile_files_of_shells() {
    assert_eq!(profile_file("/bin/zsh"), ".zshrc");
    assert_eq!(profile_file("/usr/bin/bash"), ".bashrc");
    assert_eq!(profile_file("/bin/fish"), ".profile");
    assert_eq!(profile_file(""), ".profile");
}

// ── The user's environment and PATH ─────────────────────────────────────────────

#[test]
fn managed_values_round_trip() {
    let mut env: Vec<(String, String)> = Vec::new();
    let proxy_of = |env: &Vec<(String, String)>| {
        env.iter().find(|(k, _)| k == "HTTPS_PROXY").map(|(_, v)| v.clone())
    };
    let clear = |env: &mut Vec<(String, String)>| {
        let deletions: Vec<Deletion> = env_keys()
            .iter()
            .map(|k| match env.iter().position(|(n, _)| n == k) {
                Some(i) => {
                    env.remove(i);
                    Deletion::Deleted
                }
                None => Deletion::Missing,
            })
            .collect();
        clear_user_env(&deletions)
    };
    assert!(!user_env_has_proxy(proxy_of(&env).as_deref()), "fresh key has no proxy");
    assert_eq!(clear(&mut env), Ok(false), "nothing to clear yet");
    env.extend(set_user_env("http://127.0.0.1:18784", "C:\\Users\\u\\ca.pem"));
    assert!(user_env_has_proxy(proxy_of(&env).as_deref()), "proxy set");
    assert_eq!(
        env[2],
        ("NODE_EXTRA_CA_CERTS".to_string(), "C:\\Users\\u\\ca.pem".to_string())
    );
    assert_eq!(env[1].1, "http://127.0.0.1:18784");
    assert_eq!(clear(&mut env), Ok(true), "values removed");
    assert!(!user_env_has_proxy(proxy_of(&env).as_deref()), "proxy gone after clear");
}

#[test]
fn a_failed_deletion_is_named() {
    assert_eq!(
        clear_user_env(&[Deletion::Deleted, Deletion::Failed, Deletion::Failed]),
        Err(1)
    );
    assert_eq!(clear_user_env(&[]), Ok(false));
    assert_eq!(env_keys(), vec!["HTTPS_PROXY", "HTTP_PROXY", "NODE_EXTRA_CA_CERTS"]);
    assert!(!user_env_has_proxy(Some("http://proxy.example:3128")));
}

#[test]
fn path_is_rewritten_only_when_it_changes() {
    assert_eq!(path_update("C:\\a;C:\\b", "c:\\B/"), Some("C:\\a".to_string()));
    assert_eq!(path_update("C:\\a;;C:\\b", "C:\\c"), None);
    let once = strip_path_entry(" C:\\A ;x;C:\\a\\;y", "C:\\a");
    assert_eq!(once, "x;y");
    assert_eq!(strip_path_entry(&once, "C:\\a"), once);
}

#[test]
fn registry_strings_are_utf16_with_a_nul() {
    assert_eq!(encode_utf16_nul(""), vec![0, 0]);
    assert_eq!(encode_utf16_nul("aé"), vec![0x61, 0, 0xe9, 0, 0, 0]);
    assert_eq!(encode_utf16_nul("→"), vec![0x92, 0x21, 0, 0]);
    assert_eq!(encode_utf16_nul("😀"), vec![0x3d, 0xd8, 0x00, 0xde, 0, 0]);
}

// ── Setting up ──────────────────────────────────────────────────────────────────

fn row(mark: Mark, label: &str, text: &str) -> Row {
    Row { mark, label: label.to_string(), text: text.to_string() }
}

#[test]
fn a_first_setup_wires_one_port() {
    let mut r = SetupRun::new(Platform::Unix, None, None, None);
    assert_eq!(r.action(), run::Action::FindPort { start: 8787 });
    // An event that answers nothing changes nothing.
    r.take(run::Event::Done);
    assert_eq!(r.action(), run::Action::FindPort { start: 8787 });
    r.take(run::Event::Port(8790));
    assert_eq!(r.port_note().as_deref(), Some("Port 8787 busy — using 8790."));
    assert_eq!(r.action(), run::Action::EnsureCa);
    r.take(run::Event::Ca("/h/ca.pem".to_string()));
    assert_eq!(
        r.action(),
        run::Action::WriteProfile {
            proxy: "http://127.0.0.1:8790".to_string(),
            ca: "/h/ca.pem".to_string()
        }
    );
    r.take(run::Event::Profile(None));
    assert_eq!(r.action(), run::Action::EnableAutostart { port: 8790 });
    r.take(run::Event::Failed("no session".to_string()));
    assert_eq!(r.action(), run::Action::StopDaemon);
    r.take(run::Event::Done);
    assert_eq!(r.action(), run::Action::SpawnDaemon { port: 8790 });
    r.take(run::Event::Failed("busy".to_string()));
    assert_eq!(r.action(), run::Action::Report);
    assert_eq!(
        *r.rows(),
        vec![
            row(Mark::Good, "Local CA", "/h/ca.pem"),
            row(Mark::Note, "Profile", "no shell profile found — set the env yourself (below)"),
            row(Mark::Warn, "Autostart", "not enabled: no session"),
            row(Mark::Warn, "Interceptor", "not started: busy"),
        ]
    );
    let closing = r.closing();
    assert_eq!(closing[0], Line::Blank);
    assert_eq!(closing[1], Line::Plain("Export these in your shell yourself:".to_string()));
    assert_eq!(
        closing[2],
        Line::Plain("    export HTTPS_PROXY=http://127.0.0.1:8790".to_string())
    );
    assert_eq!(
        closing[3],
        Line::Plain("    export NODE_EXTRA_CA_CERTS=/h/ca.pem".to_string())
    );
    assert_eq!(
        closing[5],
        Line::Warning("Setup finished, but the interceptor is not running — see above.".to_string())
    );
}

#[test]
fn a_second_setup_keeps_the_interceptor() {
    let daemon = Daemon { pid: 12, port: 8800 };
    let mut r = SetupRun::new(Platform::Windows, None, Some(daemon), Some(8700));
    assert_eq!(r.port_note(), None);
    r.take(run::Event::Ca("C:\\ca.pem".to_string()));
    assert_eq!(
        r.action(),
        run::Action::SetUserEnv {
            proxy: "http://127.0.0.1:8800".to_string(),
            ca: "C:\\ca.pem".to_string()
        }
    );
    r.take(run::Event::Done);
    assert_eq!(r.action(), run::Action::RemoveLegacyBlock);
    r.take(run::Event::Profile(Some("C:\\p.ps1".to_string())));
    assert_eq!(r.action(), run::Action::Broadcast);
    r.take(run::Event::Done);
    assert_eq!(r.action(), run::Action::EnableAutostart { port: 8800 });
    r.take(run::Event::Done);
    assert_eq!(r.action(), run::Action::Report);
    assert_eq!(
        *r.rows(),
        vec![
            row(Mark::Good, "Local CA", "C:\\ca.pem"),
            row(Mark::Good, "Environment", "HKCU\\Environment — HTTPS_PROXY + CA trust"),
            row(Mark::Good, "Profile", "legacy env block removed from C:\\p.ps1"),
            row(Mark::Good, "Autostart", "runs at login"),
            row(Mark::Good, "Interceptor", "already running · pid 12 · port 8800"),
        ]
    );
    let closing = r.closing();
    assert_eq!(closing[1], Line::Bold("Done — the interceptor is running.".to_string()));
    assert_eq!(
        *closing.last().unwrap(),
        Line::Note(
            "For GUI apps that pin their own trust store, trust the CA system-wide: \
             certutil -addstore -user Root \"C:\\ca.pem\" — or see llmtrim ca."
                .to_string()
        )
    );
}

#[test]
fn an_explicit_port_moves_the_interceptor() {
    let daemon = Daemon { pid: 12, port: 8800 };
    let mut r = SetupRun::new(Platform::Unix, Some(9000), Some(daemon), None);
    r.take(run::Event::Ca("/ca".to_string()));
    r.take(run::Event::Profile(Some("/h/.zshrc".to_string())));
    r.take(run::Event::Done);
    assert_eq!(r.action(), run::Action::StopDaemon);
    r.take(run::Event::Done);
    r.take(run::Event::Spawned(77));
    assert_eq!(
        *r.rows(),
        vec![
            row(Mark::Good, "Local CA", "/ca"),
            row(Mark::Good, "Profile", "/h/.zshrc — HTTPS_PROXY + CA trust"),
            row(Mark::Good, "Autostart", "runs at login"),
            row(Mark::Good, "Interceptor", "running · pid 77 · port 9000"),
        ]
    );
    let closing = r.closing();
    assert!(closing.contains(&Line::Plain(
        "  2. verify it took:  echo $HTTPS_PROXY  →  http://127.0.0.1:9000".to_string()
    )));
    assert!(closing.contains(&Line::Hint(
        "watch savings".to_string(),
        "llmtrim status".to_string()
    )));
}

// ── Uninstalling ────────────────────────────────────────────────────────────────

fn uninstall_all(
    platform: Platform,
    purge: bool,
    keep_binary: bool,
    events: Vec<uninstall::Event>,
) -> (Vec<uninstall::Action>, UninstallRun) {
    let mut r = UninstallRun::new(platform, purge, keep_binary);
    let mut actions = Vec::new();
    for e in events {
        actions.push(r.action());
        r.take(e);
    }
    assert_eq!(r.action(), uninstall::Action::Report);
    (actions, r)
}

fn path(s: &str) -> uninstall::Event {
    uninstall::Event::Path(s.to_string())
}

#[test]
fn uninstall_on_unix_removes_everything() {
    let (actions, r) = uninstall_all(
        Platform::Unix,
        true,
        false,
        vec![
            uninstall::Event::Stopped(5),
            uninstall::Event::Done,
            path("/h/.zshrc"),
            path("/h/.llmtrim"),
            path("/h/db"),
            uninstall::Event::Done,
            path("/bin/llmtrim"),
            uninstall::Event::Done,
        ],
    );
    assert_eq!(
        actions,
        vec![
            uninstall::Action::StopDaemon,
            uninstall::Action::DisableAutostart,
            uninstall::Action::RemoveProfileBlock,
            uninstall::Action::RemoveState,
            uninstall::Action::FindLedger,
            uninstall::Action::RemoveLedger,
            uninstall::Action::FindBinary,
            uninstall::Action::RemoveBinary,
        ]
    );
    assert_eq!(
        *r.rows(),
        vec![
            row(Mark::Good, "Interceptor", "stopped (pid 5)"),
            row(Mark::Good, "Autostart", "disabled"),
            row(Mark::Good, "Profile", "env block removed from /h/.zshrc"),
            row(Mark::Good, "State", "removed /h/.llmtrim (CA, key, daemon state)"),
            row(Mark::Good, "Ledger", "removed /h/db"),
            row(Mark::Good, "Binary", "removed /bin/llmtrim"),
        ]
    );
    assert_eq!(
        r.closing(),
        vec![
            Line::Blank,
            Line::Bold(
                "Done. Open a new shell so the environment changes take effect.".to_string()
            ),
            Line::Note(
                "If you trusted the CA system-wide manually, remove it from your OS trust store."
                    .to_string()
            ),
        ]
    );
}

#[test]
fn uninstall_spares_the_ledger_and_the_binary() {
    let (actions, r) = uninstall_all(
        Platform::Unix,
        false,
        true,
        vec![
            uninstall::Event::Nothing,
            uninstall::Event::Failed("denied".to_string()),
            uninstall::Event::Nothing,
            uninstall::Event::Nothing,
            path("/h/db"),
        ],
    );
    assert!(!actions.contains(&uninstall::Action::RemoveLedger));
    assert_eq!(
        *r.rows(),
        vec![
            row(Mark::Note, "Interceptor", "no daemon was running"),
            row(Mark::Warn, "Autostart", "not changed: denied"),
            row(Mark::Note, "Profile", "no env block to remove"),
            row(Mark::Note, "State", "no state directory to remove"),
            row(Mark::Note, "Ledger", "kept /h/db (use --purge to remove)"),
            row(Mark::Note, "Binary", "kept"),
        ]
    );
}

#[test]
fn uninstall_goes_on_after_failures() {
    let (_, r) = uninstall_all(
        Platform::Unix,
        false,
        false,
        vec![
            uninstall::Event::Failed("a".to_string()),
            uninstall::Event::Done,
            uninstall::Event::Failed("b".to_string()),
            uninstall::Event::Stuck("/h/.llmtrim".to_string(), "c".to_string()),
            uninstall::Event::Failed("d".to_string()),
            uninstall::Event::Failed("e".to_string()),
        ],
    );
    assert_eq!(
        *r.rows(),
        vec![
            row(Mark::Warn, "Interceptor", "could not stop: a"),
            row(Mark::Good, "Autostart", "disabled"),
            row(Mark::Warn, "Profile", "not cleaned: b"),
            row(Mark::Warn, "State", "could not remove /h/.llmtrim: c"),
            row(Mark::Warn, "Ledger", "not found: d"),
            row(Mark::Warn, "Binary", "not found: e"),
        ]
    );
}

#[test]
fn uninstall_on_windows_cleans_the_registry() {
    let (actions, r) = uninstall_all(
        Platform::Windows,
        false,
        false,
        vec![
            uninstall::Event::Nothing,
            uninstall::Event::Done,
            uninstall::Event::Done,
            path("C:\\p.ps1"),
            uninstall::Event::Done,
            uninstall::Event::Nothing,
            uninstall::Event::Nothing,
            path("C:\\llmtrim.exe"),
            uninstall::Event::Done,
            uninstall::Event::Nothing,
            uninstall::Event::Done,
        ],
    );
    assert_eq!(
        actions[2..],
        [
            uninstall::Action::ClearUserEnv,
            uninstall::Action::RemoveProfileBlock,
            uninstall::Action::Broadcast,
            uninstall::Action::RemoveState,
            uninstall::Action::FindLedger,
            uninstall::Action::FindBinary,
            uninstall::Action::CleanPath,
            uninstall::Action::ScheduleRemoval,
            uninstall::Action::Rebroadcast,
        ]
    );
    assert_eq!(r.found(), "C:\\llmtrim.exe");
    assert_eq!(
        r.rows()[2..],
        [
            row(Mark::Good, "Environment", "interceptor env removed from HKCU\\Environment"),
            row(Mark::Good, "Profile", "legacy env block removed from C:\\p.ps1"),
            row(Mark::Note, "State", "no state directory to remove"),
            row(Mark::Good, "PATH", "removed the llmtrim bin dir from your user PATH"),
            row(Mark::Note, "Binary", "remove manually: C:\\llmtrim.exe"),
        ]
    );
}

#[test]
fn places_of_profiles() {
    assert_eq!(
        profile_target(Some("/home/u"), "/bin/zsh"),
        Some(vec!["/home/u".to_string(), ".zshrc".to_string()])
    );
    assert_eq!(profile_target(None, "/bin/zsh"), None);
    assert_eq!(
        powershell_profile(Some(" C:\\p.ps1\r\n"), Some("C:\\u")),
        Some(vec!["C:\\p.ps1".to_string()])
    );
    let conventional = Some(vec![
        "C:\\u".to_string(),
        "Documents".to_string(),
        "PowerShell".to_string(),
        "profile.ps1".to_string(),
    ]);
    assert_eq!(powershell_profile(Some(" \n"), Some("C:\\u")), conventional);
    assert_eq!(powershell_profile(None, Some("C:\\u")), conventional);
    assert_eq!(powershell_profile(None, None), None);
}

#[test]
fn what_is_wired_is_recognised() {
    let profile = with_block("a\n", &proxy_url(8787), "/ca", Syntax::Posix);
    assert!(profile_has_block(Some(&profile), Platform::Unix));
    assert!(!profile_has_block(Some("a\n"), Platform::Unix));
    assert!(!profile_has_block(None, Platform::Other));
    let values = set_user_env(&proxy_url(8787), "C:\\ca");
    assert!(profile_has_block(Some(&values[0].1), Platform::Windows));
    assert!(!profile_has_block(Some("http://proxy:1"), Platform::Windows));
    assert!(!profile_has_block(None, Platform::Windows));
    let names: Vec<String> = values.into_iter().map(|(name, _)| name).collect();
    assert_eq!(names, env_keys());
}

#[test]
fn only_a_string_path_is_rewritten() {
    let bytes = encode_utf16_nul("C:\\a");
    for kind in [ValueKind::Text, ValueKind::Expandable] {
        assert_eq!(
            remove_bin_dir_from_path(kind, "C:\\a;C:\\b", Some("C:\\b")),
            Some(bytes.clone())
        );
        assert_eq!(remove_bin_dir_from_path(kind, "C:\\a", Some("C:\\b")), None);
        assert_eq!(remove_bin_dir_from_path(kind, "C:\\a", None), None);
    }
    assert_eq!(remove_bin_dir_from_path(ValueKind::Other, "C:\\b", Some("C:\\b")), None);
    assert_eq!(
        removal_script("C:\\x y"),
        "ping 127.0.0.1 -n 3 >nul & rmdir /s /q \"C:\\x y\""
    );
}

#[test]
fn the_port_comes_from_the_managed_block() {
    let block = env_block(&proxy_url(8787), "c", Syntax::Posix);
    let own = "export OLLAMA=http://127.0.0.1:11434\n";
    assert_eq!(configured_port(&format!("{own}{block}")), Some(8787));
    assert_eq!(configured_port(&format!("{block}{own}")), Some(8787));
    assert_eq!(configured_port(own), None);
    assert_eq!(configured_port(""), None);
    assert_eq!(configured_port(&block), Some(8787));
    assert_eq!(parse_proxy_port(&block), Some(8787));
    // A block that was never closed still counts.
    assert_eq!(configured_port(&format!("{BEGIN}\nX=127.0.0.1:9\n")), Some(9));
    let written = with_block(&format!("{own}a\r\r\n"), &proxy_url(9000), "c\nd", Syntax::PowerShell);
    assert_eq!(configured_port(&written), Some(9000));
}

#[test]
fn a_failed_step_of_setup_warns_and_the_rest_proceeds() {
    let mut r = SetupRun::new(Platform::Unix, Some(9000), None, None);
    r.take(run::Event::Ca("/ca".to_string()));
    r.take(run::Event::Failed("read-only".to_string()));
    assert_eq!(r.action(), run::Action::EnableAutostart { port: 9000 });
    r.take(run::Event::Done);
    r.take(run::Event::Failed("no such process".to_string()));
    assert_eq!(r.action(), run::Action::SpawnDaemon { port: 9000 });
    r.take(run::Event::Spawned(3));
    assert_eq!(
        r.rows()[1..],
        [
            row(Mark::Warn, "Profile", "not written: read-only"),
            row(Mark::Good, "Autostart", "runs at login"),
            row(Mark::Warn, "Interceptor", "could not stop: no such process"),
            row(Mark::Good, "Interceptor", "running · pid 3 · port 9000"),
        ]
    );
    assert_eq!(
        r.closing()[1],
        Line::Plain("Export these in your shell yourself:".to_string())
    );

    let mut r = SetupRun::new(Platform::Windows, Some(9000), None, None);
    r.take(run::Event::Ca("C".to_string()));
    r.take(run::Event::Failed("denied".to_string()));
    assert_eq!(r.action(), run::Action::RemoveLegacyBlock);
    r.take(run::Event::Failed("locked".to_string()));
    assert_eq!(r.action(), run::Action::Broadcast);
    assert_eq!(
        r.rows()[1..],
        [
            row(Mark::Warn, "Environment", "not set: denied"),
            row(Mark::Warn, "Profile", "legacy env block not removed: locked"),
        ]
    );
}

#[test]
fn a_failed_removal_is_not_reported_as_done() {
    let (_, r) = uninstall_all(
        Platform::Unix,
        true,
        false,
        vec![
            uninstall::Event::Nothing,
            uninstall::Event::Done,
            uninstall::Event::Nothing,
            uninstall::Event::Failed("no home".to_string()),
            path("/h/db"),
            uninstall::Event::Failed("busy".to_string()),
            path("/bin/llmtrim"),
            uninstall::Event::Failed("denied".to_string()),
        ],
    );
    assert_eq!(
        r.rows()[3..],
        [
            row(Mark::Warn, "State", "not removed: no home"),
            row(Mark::Warn, "Ledger", "could not remove /h/db: busy"),
            row(Mark::Warn, "Binary", "could not remove /bin/llmtrim: denied"),
        ]
    );
    let (_, r) = uninstall_all(
        Platform::Windows,
        false,
        false,
        vec![
            uninstall::Event::Nothing,
            uninstall::Event::Done,
            uninstall::Event::Nothing,
            uninstall::Event::Failed("locked".to_string()),
            uninstall::Event::Done,
            uninstall::Event::Nothing,
            uninstall::Event::Nothing,
            path("C:\\llmtrim.exe"),
            uninstall::Event::Failed("denied".to_string()),
            uninstall::Event::Failed("no cmd".to_string()),
            uninstall::Event::Done,
        ],
    );
    assert_eq!(r.rows()[3], row(Mark::Warn, "Profile", "legacy env block not removed: locked"));
    assert_eq!(
        r.rows()[5..],
        [
            row(Mark::Warn, "PATH", "not cleaned: denied"),
            row(
                Mark::Warn,
                "Binary",
                "could not schedule the removal of C:\\llmtrim.exe: no cmd"
            ),
        ]
    );
}

#[test]
fn a_written_profile_has_one_block() {
    let block = env_block(&proxy_url(8787), "c", Syntax::Posix);
    for existing in [
        String::new(),
        format!("a\n{block}b\n{block}"),
        format!("{BEGIN}\nunclosed\n"),
        format!("a\n  {BEGIN}  \r\nx\n{END}\n{END}\n"),
    ] {
        for syntax in [Syntax::Posix, Syntax::PowerShell] {
            let written = with_block(&existing, &proxy_url(9000), "c", syntax);
            let count = |mark: &str| written.lines().filter(|l| l.trim() == mark).count();
            assert_eq!((count(BEGIN), count(END)), (1, 1), "{written}");
        }
    }
}
