//! Which LaunchAgents directory a command works on, and who may use it.
use vstd::prelude::*;
use crate::text::{join_path, join_path_str, trim, trim_str};

verus! {

/// Why no target directory could be chosen.
#[derive(Debug)]
pub enum ScopeError {
    /// User scope, but `HOME` is not set (or is not valid Unicode).
    HomeNotSet,
    /// System scope, but the process does not run as root.
    NotRoot,
}

impl ScopeError {
    /// The text of the error.
    pub fn message(&self) -> (res: String)
        ensures
            res@ == match self {
                ScopeError::HomeNotSet => "HOME environment variable not set"@,
                ScopeError::NotRoot => "this operation requires root. Re-run with sudo."@,
            },
    {
        match self {
            ScopeError::HomeNotSet => String::from_str("HOME environment variable not set"),
            ScopeError::NotRoot => String::from_str("this operation requires root. Re-run with sudo."),
        }
    }
}

/// The directory of the system's LaunchAgents: `/Library/LaunchAgents`.
pub fn system_agents_dir() -> (res: String)
    ensures
        res@ == "/Library/LaunchAgents"@,
{
    String::from_str("/Library/LaunchAgents")
}

/// Succeeds exactly when the process runs as root.
pub fn check_root(is_root: bool) -> (res: Result<(), ScopeError>)
    ensures
        is_root ==> res is Ok,
        !is_root ==> res matches Err(ScopeError::NotRoot),
{
    if !is_root {
        Err(ScopeError::NotRoot)
    } else {
        Ok(())
    }
}

/// Whether the output of `id -u` says the user is root: it is `"0"` once
/// trimmed. `None` stands for a command that could not run or whose output
/// is not UTF-8, which counts as not root.
pub fn is_root(id_output: Option<String>) -> (res: bool)
    ensures
        res == match id_output {
            Some(s) => trim(s@) == seq!['0'],
            None => false,
        },
{
    match id_output {
        Some(s) => {
            let t = trim_str(s.as_str());
            let zero = String::from_str("0");
            proof {
                reveal_strlit("0");
                assert(zero@ =~= seq!['0']);
            }
            t == zero
        },
        None => false,
    }
}

/// The LaunchAgents directory a command works on: with `user`,
/// `$HOME/Library/LaunchAgents`; otherwise `/Library/LaunchAgents`, which
/// needs root.
pub fn target_dir(user: bool, home: Option<String>, is_root: bool) -> (res: Result<String, ScopeError>)
    ensures
        user ==> match home {
            Some(h) => res matches Ok(d) && d@ == join_path(h@, "Library/LaunchAgents"@),
            None => res matches Err(ScopeError::HomeNotSet),
        },
        !user && is_root ==> (res matches Ok(d) && d@ == "/Library/LaunchAgents"@),
        !user && !is_root ==> res matches Err(ScopeError::NotRoot),
{
    if user {
        match home {
            Some(h) => Ok(join_path_str(h.as_str(), "Library/LaunchAgents")),
            None => Err(ScopeError::HomeNotSet),
        }
    } else {
        match check_root(is_root) {
            Err(e) => Err(e),
            Ok(()) => Ok(system_agents_dir()),
        }
    }
}

} // verus!
