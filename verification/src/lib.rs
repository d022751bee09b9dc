//! A positional, line-based editor for the `export KEY=VALUE` declarations of a
//! shell startup file.
//!
//! Declarations are read out of the file's lines together with the line number
//! they stand on, changed in memory, and written back over the lines they came
//! from; every other line of the file is left as it is.
//!
//! Nothing here touches the file system. Whoever calls reads the file and
//! hands its lines in, and writes out the text that `save` hands back.

use crate::config_file::ShellConfig;
use vstd::prelude::*;

pub mod commands;
pub mod config_file;
pub mod line;
pub mod matching;
pub mod msg;
pub mod overlay;
pub mod text;

verus! {

/// The session: the configuration that was loaded last, if any.
pub struct AppState {
    pub shell_config: Option<ShellConfig>,
}

impl AppState {
    /// Whether the configuration of this session, if there is one, is well
    /// formed.
    pub open spec fn wf(self) -> bool {
        self.shell_config matches Some(config) ==> config@.wf()
    }
}

impl Default for AppState {
    /// The session in which nothing is loaded.
    fn default() -> (state: Self)
        ensures
            state.shell_config is None,
            state.wf(),
    {
        AppState { shell_config: None }
    }
}

} // verus!
