//! Command-line argument model.
//!
//! These are the bare data types; the binary attaches its argument-parsing
//! derives to its own copies and converts.

use vstd::prelude::*;

verus! {

/// The parsed command line: an optional subcommand.
pub struct Args {
    pub subcommand: Option<Subcommand>,
}

/// The available subcommands.
pub enum Subcommand {
    Hook { hook_type: HookType },
}

/// Which git hook a `hook` subcommand should install.
pub enum HookType {
    Commit,
    Push,
}

impl HookType {
    /// The file name of the git hook this hook type installs to.
    pub fn filename(&self) -> (r: String)
        ensures
            (match self {
                HookType::Commit => r@ == "pre-commit"@,
                HookType::Push => r@ == "pre-push"@,
            }),
    {
        match self {
            HookType::Commit => "pre-commit".to_owned(),
            HookType::Push => "pre-push".to_owned(),
        }
    }
}

} // verus!
