//! The command line of the skills tool, and the exit statuses of its runs.
//!
//! Exit statuses: `0` success, `1` a validation failure surfaced by `check`
//! or `build` (or a stale skill for `sources --exit-code`), `2` any error
//! that ends the run.

use vstd::prelude::*;

verus! {

/// Default directory of standalone skills.
pub const DEFAULT_SKILLS_DIR: &'static str = "skills";
/// Default directory of plugins; plugin-bundled skills live under
/// `<plugins_dir>/*/skills/*`.
pub const DEFAULT_PLUGINS_DIR: &'static str = "plugins";
/// Default output directory for ZIP archives.
pub const DEFAULT_DIST_DIR: &'static str = "dist";

/// What to do.
#[derive(Debug, Clone)]
pub enum Command {
    /// Parse and validate every skill. Exit non-zero on any failure.
    Check,
    /// Validate every skill, then write ZIP archives into the dist directory.
    Build,
    /// Build artifacts, then create any missing release and upload any
    /// missing ZIP asset.
    Upload {
        /// GitHub repository in `owner/name` form.
        repo: Option<String>,
        /// Plan the uploads without creating releases or uploading assets.
        dry_run: bool,
    },
    /// Report skills that have drifted from their upstream sources.
    Sources {
        /// Print the drift report as JSON instead of a log summary.
        json: bool,
        /// Exit 1 when any skill is stale.
        exit_code: bool,
    },
}

/// The arguments of a run.
#[derive(Debug, Clone)]
pub struct Cli {
    /// Path to the standalone skills directory.
    pub skills_dir: String,
    /// Path to the plugins directory.
    pub plugins_dir: String,
    /// Path to the output directory for ZIP archives.
    pub dist_dir: String,
    /// The subcommand.
    pub command: Command,
}

/// Exit status of a run that ended with an error.
pub const EXIT_ERROR: u8 = 2;

/// The exit status of `check` and `build`: `1` when the scan had errors,
/// else `0`.
pub fn scan_exit_status(had_errors: bool) -> (s: u8)
    ensures
        s == (if had_errors { 1u8 } else { 0u8 }),
{
    if had_errors {
        1
    } else {
        0
    }
}

/// Whether an upload run may go on after its build: only when no skill
/// failed parsing or validation.
pub fn upload_may_proceed(had_errors: bool) -> (b: bool)
    ensures
        b == !had_errors,
{
    !had_errors
}

/// The message of an upload run stopped by failing skills.
pub fn upload_abort_message() -> (m: String)
    ensures
        m@ == "aborting upload: at least one skill failed parsing or validation"@,
{
    "aborting upload: at least one skill failed parsing or validation".to_owned()
}

/// The exit status of `sources`: `1` when asked to gate on staleness and
/// some skill is stale, else `0`.
pub fn sources_exit_status(exit_code: bool, stale: bool) -> (s: u8)
    ensures
        s == (if exit_code && stale { 1u8 } else { 0u8 }),
{
    if exit_code && stale {
        1
    } else {
        0
    }
}

} // verus!
