//! The user's preferences and the start-with-the-system entry.

use vstd::prelude::*;

use crate::text::owned;

verus! {

/// The user's saved preferences.
#[derive(Clone, Debug)]
pub struct Config {
    /// Dark theme (the default) or light.
    pub dark_mode: bool,
    /// Start the application when the user logs in.
    pub start_with_windows: bool,
    /// The local git repository the Markdown export is synced to.
    pub git_repo_path: Option<String>,
}

impl Default for Config {
    /// Dark theme, no start at login, no sync repository.
    fn default() -> (r: Config)
        ensures
            r.dark_mode,
            !r.start_with_windows,
            r.git_repo_path is None,
    {
        Config { dark_mode: true, start_with_windows: false, git_repo_path: None }
    }
}

/// The value name of the start-at-login entry.
pub open spec fn run_entry_name() -> Seq<char> {
    "Tasky"@
}

/// What to do with the start-at-login entry of the current user.
#[derive(Clone, Debug)]
pub enum RunEntry {
    /// Write the value `name` with the command that starts the application.
    Write { name: String, command: String },
    /// Remove the value `name` (nothing to do if it is not there).
    Delete { name: String },
}

/// The change to the start-at-login entry when the setting becomes
/// `enabled`, for the executable at `exe`.
pub fn run_entry(enabled: bool, exe: &str) -> (r: RunEntry)
    ensures
        enabled ==> (r matches RunEntry::Write { name, command } && name@ == run_entry_name()
            && command@ == exe@),
        !enabled ==> (r matches RunEntry::Delete { name } && name@ == run_entry_name()),
{
    if enabled {
        RunEntry::Write { name: owned("Tasky"), command: owned(exe) }
    } else {
        RunEntry::Delete { name: owned("Tasky") }
    }
}

} // verus!
