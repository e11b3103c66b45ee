//! Aggregate accounting across containers.
//!
//! The orchestrator processes containers one by one and adds each outcome
//! into a running total. A container that failed contributes nothing and
//! does not disturb the rest. Totals saturate at the numeric limit rather
//! than wrap.

use vstd::prelude::*;
use crate::rebuild::ArchiveError;
use crate::rebuild::RebuildOutcome;

verus! {

/// A sum capped at the largest representable total.
pub open spec fn sat_cap(x: nat) -> nat {
    if x <= u128::MAX as nat {
        x
    } else {
        u128::MAX as nat
    }
}

/// What one container's result adds to the totals: its removed-entry
/// count and removed byte sum, or nothing when it failed.
pub open spec fn report_contribution(r: Result<RebuildOutcome, ArchiveError>) -> (nat, nat) {
    match r {
        Ok(out) => (out.removed_count as nat, out.removed_bytes as nat),
        Err(_) => (0nat, 0nat),
    }
}

/// The exact removed-entry count over a run of results.
pub open spec fn sum_files(rs: Seq<Result<RebuildOutcome, ArchiveError>>) -> nat
    decreases rs.len(),
{
    if rs.len() == 0 {
        0
    } else {
        sum_files(rs.drop_last()) + report_contribution(rs.last()).0
    }
}

/// The exact removed byte sum over a run of results.
pub open spec fn sum_bytes(rs: Seq<Result<RebuildOutcome, ArchiveError>>) -> nat
    decreases rs.len(),
{
    if rs.len() == 0 {
        0
    } else {
        sum_bytes(rs.drop_last()) + report_contribution(rs.last()).1
    }
}

/// Running totals over all processed containers.
pub struct Totals {
    pub files_removed: u128,
    pub bytes_removed: u128,
}

/// Add with saturation at the largest representable total.
fn sat_add_u128(a: u128, b: u128) -> (r: u128)
    ensures
        r as nat == sat_cap(a as nat + b as nat),
{
    if a <= u128::MAX - b {
        a + b
    } else {
        u128::MAX
    }
}

impl Totals {
    /// A fresh aggregate with nothing counted yet.
    pub fn new() -> (t: Totals)
        ensures
            t.files_removed == 0,
            t.bytes_removed == 0,
    {
        Totals { files_removed: 0, bytes_removed: 0 }
    }

    /// Add one container's result. A failed container contributes
    /// nothing; totals never decrease and saturate at the limit.
    pub fn accumulate(&mut self, r: &Result<RebuildOutcome, ArchiveError>)
        ensures
            final(self).files_removed as nat == sat_cap(
                old(self).files_removed as nat + report_contribution(*r).0,
            ),
            final(self).bytes_removed as nat == sat_cap(
                old(self).bytes_removed as nat + report_contribution(*r).1,
            ),
    {
        match r {
            Ok(out) => {
                self.files_removed = sat_add_u128(self.files_removed, out.removed_count as u128);
                self.bytes_removed = sat_add_u128(self.bytes_removed, out.removed_bytes);
            },
            Err(_) => {},
        }
    }
}

/// A failed container leaves the totals exactly as they were.
pub proof fn lemma_failure_isolation(t: Totals, r: Result<RebuildOutcome, ArchiveError>)
    requires
        r is Err,
    ensures
        sat_cap(t.files_removed as nat + report_contribution(r).0) == t.files_removed as nat,
        sat_cap(t.bytes_removed as nat + report_contribution(r).1) == t.bytes_removed as nat,
{
}

/// Total a whole run of container results: the final aggregate is the sum
/// of the per-container contributions, capped only at the numeric limit.
pub fn aggregate(reports: &Vec<Result<RebuildOutcome, ArchiveError>>) -> (t: Totals)
    ensures
        t.files_removed as nat == sat_cap(sum_files(reports@)),
        t.bytes_removed as nat == sat_cap(sum_bytes(reports@)),
{
    let mut t = Totals::new();
    let mut i: usize = 0;
    while i < reports.len()
        invariant
            i <= reports@.len(),
            t.files_removed as nat == sat_cap(sum_files(reports@.take(i as int))),
            t.bytes_removed as nat == sat_cap(sum_bytes(reports@.take(i as int))),
        decreases reports@.len() - i,
    {
        proof {
            assert(reports@.take(i + 1).drop_last() =~= reports@.take(i as int));
            assert(reports@.take(i + 1).last() == reports@[i as int]);
        }
        t.accumulate(&reports[i]);
        i += 1;
    }
    proof {
        assert(reports@.take(reports@.len() as int) =~= reports@);
    }
    t
}

/// Below the numeric limit the aggregate is the exact sum of the
/// per-container contributions: the cap never bites there.
pub proof fn lemma_aggregate_exact(rs: Seq<Result<RebuildOutcome, ArchiveError>>)
    requires
        sum_files(rs) <= u128::MAX as nat,
        sum_bytes(rs) <= u128::MAX as nat,
    ensures
        sat_cap(sum_files(rs)) == sum_files(rs),
        sat_cap(sum_bytes(rs)) == sum_bytes(rs),
{
}

/// The exact uncompressed sum of a list of sizes, as collected for a
/// whole directory that is removed in one step.
pub open spec fn size_sum(s: Seq<u64>) -> nat
    decreases s.len(),
{
    if s.len() == 0 {
        0
    } else {
        size_sum(s.drop_last()) + s.last() as nat
    }
}

/// Sum the sizes of a directory's files.
pub fn sum_sizes(sizes: &Vec<u64>) -> (t: u128)
    ensures
        t as nat == size_sum(sizes@),
{
    let mut t: u128 = 0;
    let mut i: usize = 0;
    while i < sizes.len()
        invariant
            i <= sizes@.len(),
            t as nat == size_sum(sizes@.take(i as int)),
            t as nat <= (i as nat) * 0xffff_ffff_ffff_ffffnat,
        decreases sizes@.len() - i,
    {
        proof {
            assert(sizes@.take(i + 1).drop_last() =~= sizes@.take(i as int));
            assert(sizes@.take(i + 1).last() == sizes@[i as int]);
            assert((i as nat) * 0xffff_ffff_ffff_ffffnat + 0xffff_ffff_ffff_ffffnat == (i as nat
                + 1) * 0xffff_ffff_ffff_ffffnat) by (nonlinear_arith);
            assert((i as nat + 1) * 0xffff_ffff_ffff_ffffnat <= (usize::MAX as nat)
                * 0xffff_ffff_ffff_ffffnat) by (nonlinear_arith)
                requires i as nat + 1 <= usize::MAX as nat;
        }
        t = t + sizes[i] as u128;
        i += 1;
    }
    proof {
        assert(sizes@.take(sizes@.len() as int) =~= sizes@);
    }
    t
}

} // verus!
