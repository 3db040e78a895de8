use vstd::prelude::*;

verus! {

/// How a command ended: the exit code of each segment of its pipeline, the
/// exit code of the last one, how long it ran and whether it was killed
/// for running too long.
#[derive(Debug)]
pub struct ExecResult {
    pub pipestatus: Vec<i32>,
    pub exit_code: i32,
    pub elapsed_ms: u64,
    pub timed_out: bool,
}

} // verus!
