//! One-command setup: which port to wire, the managed block of the shell profile, the `PATH`
//! entry, and the report of what was done.
pub mod laws;
pub mod path;
pub mod ports;
pub mod profile;
pub mod registry;
pub mod report;
pub mod run;
pub mod step_laws;
pub mod uninstall;
pub mod wiring_laws;
