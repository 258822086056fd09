//! What the platform layer reports about the processes running in a pane.
use vstd::prelude::*;

pub mod fallback;
pub mod procfs;

verus! {

/// One process of a terminal's foreground job.
#[derive(Clone, Debug)]
pub struct ForegroundProcess {
    pub pid: u32,
    pub name: String,
    pub argv0: Option<String>,
    pub cmdline: Option<String>,
}

/// The foreground process group of a terminal and the processes in it.
#[derive(Clone, Debug)]
pub struct ForegroundJob {
    pub process_group_id: u32,
    pub processes: Vec<ForegroundProcess>,
}

} // verus!
