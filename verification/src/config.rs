//! The user configuration consumed by task selection.
//!
//! Reading and writing the configuration file is I/O and lives with the
//! binary; the library only holds the value and its default.

use vstd::prelude::*;
use crate::text::views_of_strings;

verus! {

/// The user configuration: the substrings that mark a command as unsafe to
/// run unattended on a developer machine.
pub struct Config {
    pub command_blacklist: Vec<String>,
}

impl Config {
    /// The blacklist as a sequence of character sequences.
    pub open spec fn blacklist_view(&self) -> Seq<Seq<char>> {
        views_of_strings(self.command_blacklist@)
    }

    /// Creates a default configuration.
    ///
    /// This is deliberately an inherent function rather than an
    /// implementation of the `Default` trait, so that it is only reachable
    /// through this module.
    pub fn default() -> (r: Config)
        ensures
            r.blacklist_view() == seq![
                "apt install"@,
                "cargo install"@,
                "chown"@,
                "rustup component add"@,
            ],
    {
        let mut list: Vec<String> = Vec::new();
        list.push("apt install".to_owned());
        list.push("cargo install".to_owned());
        list.push("chown".to_owned());
        list.push("rustup component add".to_owned());
        let config = Config { command_blacklist: list };
        proof {
            assert(config.blacklist_view() =~= seq![
                "apt install"@,
                "cargo install"@,
                "chown"@,
                "rustup component add"@,
            ]);
        }
        config
    }
}

} // verus!
