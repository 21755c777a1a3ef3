//! Scanning a tree of files: which paths to skip, and the counting of code,
//! comment and blank lines per language.
pub mod code_stats;
pub mod ignore;
pub mod globs;
pub mod disk_usage;

use vstd::prelude::*;

verus! {

/// Files handled per second over `elapsed_nanos` nanoseconds, rounded down
/// and at most `u64::MAX`; zero when no time has passed.
pub open spec fn handle_speed(elapsed_nanos: nat, files_count: nat) -> nat {
    if elapsed_nanos == 0 {
        0
    } else {
        let s = files_count * 1_000_000_000 / elapsed_nanos;
        if s > u64::MAX { u64::MAX as nat } else { s }
    }
}

/// How many files were handled per second, for the report at the end of a scan.
pub fn get_handle_speed(elapsed_nanos: u128, files_count: usize) -> (r: u64)
    ensures
        r == handle_speed(elapsed_nanos as nat, files_count as nat),
{
    if elapsed_nanos == 0 {
        return 0;
    }
    assert(files_count as u128 * 1_000_000_000 <= 0xffff_ffff_ffff_ffff * 1_000_000_000) by (nonlinear_arith)
        requires files_count <= 0xffff_ffff_ffff_ffffu64;
    let s = (files_count as u128) * 1_000_000_000 / elapsed_nanos;
    if s > u64::MAX as u128 {
        u64::MAX
    } else {
        s as u64
    }
}

} // verus!
