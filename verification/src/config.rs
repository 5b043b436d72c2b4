//! The interpreter's configuration record.

use vstd::prelude::*;

verus! {

/// Settings for an interactive session: the prompt text and the command
/// aliases.  The host loads and stores this record; the library only
/// defines its shape and defaults.
pub struct RushConfig {
    /// The prompt shown before each interactive line.
    pub prompt: String,
    /// Alias names and their replacement command lines.
    pub aliases: Vec<(String, String)>,
}

impl Default for RushConfig {
    /// The default configuration: a plain `> ` prompt and no aliases.
    fn default() -> (r: Self)
        ensures
            r.prompt@ == "> "@,
            r.aliases@.len() == 0,
    {
        RushConfig { prompt: String::from_str("> "), aliases: Vec::new() }
    }
}

} // verus!
