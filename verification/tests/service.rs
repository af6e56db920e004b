use llmtrim::autostart::{
    configure, key_path, launcher_error, purge_legacy_autostart, remove_autostart_everywhere, Hive,
    Key, LauncherStep, Place, Plan, RUN_KEY, STARTUP_APPROVED_KEY, VALUE_NAME,
};
use llmtrim::gateway::{forward, on_http_request_body, BodyStep, Outcome};

#[test]
fn windows_keeps_one_entry() {
    match configure(true, 8787, "C:\\x y\\llmtrim.exe", true) {
        Plan::Registry { command, clean } => {
            assert_eq!(
                command.as_deref(),
                Some("\"C:\\x y\\llmtrim.exe\" serve --port 8787 --supervised")
            );
            assert_eq!(clean, purge_legacy_autostart());
            assert_eq!(clean.len(), 3);
            assert!(!clean.contains(&Place { hive: Hive::CurrentUser, key: Key::Run }));
        }
        Plan::Launcher { .. } => panic!("no launcher on Windows"),
    }
}

#[test]
fn windows_leaves_no_entry() {
    match configure(false, 8787, "x", true) {
        Plan::Registry { command, clean } => {
            assert_eq!(command, None);
            assert_eq!(clean, remove_autostart_everywhere());
            for hive in [Hive::CurrentUser, Hive::LocalMachine] {
                for key in [Key::Run, Key::StartupApproved] {
                    assert!(clean.contains(&Place { hive, key }));
                }
            }
        }
        Plan::Launcher { .. } => panic!("no launcher on Windows"),
    }
}

#[test]
fn elsewhere_the_launcher_starts_the_interceptor() {
    match configure(true, 9001, "/usr/bin/llmtrim", false) {
        Plan::Launcher { app_name, app_path, args, enable } => {
            assert_eq!(app_name, VALUE_NAME);
            assert_eq!(app_path, "/usr/bin/llmtrim");
            assert_eq!(args, vec!["serve", "--port", "9001", "--supervised"]);
            assert!(enable);
        }
        Plan::Registry { .. } => panic!("no registry"),
    }
}

/// What is left at login once a plan has been carried out.
fn carry_out(plan: Plan, registry: &mut Vec<(Place, String)>, launcher: &mut Vec<String>) {
    match plan {
        Plan::Registry { command, clean } => {
            let canonical = Place { hive: Hive::CurrentUser, key: Key::Run };
            if let Some(c) = command {
                registry.retain(|(place, _)| *place != canonical);
                registry.push((canonical, c));
            }
            registry.retain(|(place, _)| !clean.contains(place));
        }
        Plan::Launcher { app_name, app_path, args, enable } => {
            assert_eq!(app_name, VALUE_NAME);
            launcher.clear();
            if enable {
                launcher.push(format!("{app_path} {}", args.join(" ")));
            }
        }
    }
}

#[test]
fn login_starts_one_or_none() {
    let mut registry: Vec<(Place, String)> =
        remove_autostart_everywhere().into_iter().map(|p| (p, "old".to_string())).collect();
    let mut launcher = vec!["old".to_string()];
    carry_out(configure(true, 9001, "C:\\l.exe", true), &mut registry, &mut launcher);
    assert_eq!(registry.len(), 1);
    assert_eq!(registry[0].0, Place { hive: Hive::CurrentUser, key: Key::Run });
    assert_eq!(registry[0].1, "\"C:\\l.exe\" serve --port 9001 --supervised");
    carry_out(configure(false, 1, "", true), &mut registry, &mut launcher);
    assert!(registry.is_empty());
    carry_out(configure(true, 9001, "/l", false), &mut registry, &mut launcher);
    assert_eq!(launcher, vec!["/l serve --port 9001 --supervised"]);
    carry_out(configure(false, 1, "/l", false), &mut registry, &mut launcher);
    assert!(launcher.is_empty());
}

#[test]
fn registry_keys_and_failures() {
    assert_eq!(key_path(Key::Run), RUN_KEY);
    assert_eq!(key_path(Key::StartupApproved), STARTUP_APPROVED_KEY);
    assert_eq!(RUN_KEY, r"Software\Microsoft\Windows\CurrentVersion\Run");
    assert_eq!(
        STARTUP_APPROVED_KEY,
        r"Software\Microsoft\Windows\CurrentVersion\Explorer\StartupApproved\Run"
    );
    assert_eq!(
        launcher_error(LauncherStep::Configure, "x"),
        "failed to configure autostart: x"
    );
    assert_eq!(launcher_error(LauncherStep::Enable, "x"), "failed to enable autostart: x");
    assert_eq!(launcher_error(LauncherStep::Disable, "x"), "failed to disable autostart: x");
}

#[test]
fn bodies_are_compressed_once_they_are_whole() {
    assert_eq!(on_http_request_body(10, false), BodyStep::Pause);
    assert_eq!(on_http_request_body(0, true), BodyStep::Continue);
    assert_eq!(on_http_request_body(10, true), BodyStep::Compress { size: 10 });
}

#[test]
fn the_declared_length_is_that_of_the_sent_bytes() {
    let f = forward(Outcome { body: vec![1; 12], passthrough: false });
    assert_eq!(f.replacement, Some(vec![1; 12]));
    assert_eq!(f.content_length, "12");
    let f = forward(Outcome { body: vec![], passthrough: true });
    assert_eq!(f.replacement, None);
    assert_eq!(f.content_length, "0");
}
