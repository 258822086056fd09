//! The platform layer where process inspection is not supported.
use vstd::prelude::*;

use crate::platform::ForegroundJob;

verus! {

/// `std::path::PathBuf`, carried through unread.
#[verifier::external_type_specification]
#[verifier::external_body]
pub struct ExPathBuf(std::path::PathBuf);

/// Unsupported platform stub: no foreground job is ever found.
pub fn foreground_job(_child_pid: u32) -> (r: Option<ForegroundJob>)
    ensures
        r is None,
{
    None
}

/// Unsupported platform stub: no working directory is ever found.
pub fn process_cwd(_pid: u32) -> (r: Option<std::path::PathBuf>)
    ensures
        r is None,
{
    None
}

} // verus!
