//! How much is told while the program runs.
use vstd::prelude::*;

verus! {

/// How much is told.
#[derive(Debug, Clone, Copy, PartialEq, Eq, Structural)]
pub enum LogLevel {
    Info,
    Debug,
    Trace,
}

/// How much is told, by how many times more was asked for.
pub fn log_level(verbose: u8) -> (r: LogLevel)
    ensures
        verbose == 0 ==> r == LogLevel::Info,
        verbose == 1 ==> r == LogLevel::Debug,
        verbose >= 2 ==> r == LogLevel::Trace,
{
    match verbose {
        0 => LogLevel::Info,
        1 => LogLevel::Debug,
        _ => LogLevel::Trace,
    }
}

/// Asking for more never tells less: nothing more asked for tells the least, twice or more the most.
pub proof fn law_asking_for_more_tells_more(verbose: u8, r: LogLevel)
    requires
        call_ensures(log_level, (verbose,), r),
    ensures
        r is Info <==> verbose == 0,
        r is Debug <==> verbose == 1,
        r is Trace <==> verbose >= 2,
{
}

} // verus!
