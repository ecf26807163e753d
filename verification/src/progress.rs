//! Progress accounting: the integer percentage emitted at each checkpoint of
//! a scan. Within one scan every emitted value is at least the previous one.

use vstd::prelude::*;

verus! {

/// The summary scan's initial checkpoint, credited after chat-location
/// detection and before any root is walked.
pub const SUMMARY_START: u8 = 18;

/// The summary scan's checkpoint after document counting.
pub const SUMMARY_DOCS: u8 = 84;

/// The percentage emitted when a scan completes.
pub const SCAN_DONE: u8 = 100;

/// The walk phase of the summary scan advances proportionally through the
/// band from 18 to 60.
pub open spec fn spec_summary_walk_progress(done: int, total: int) -> int
    recommends
        1 <= total,
        0 <= done <= total,
{
    18 + done * 42 / total
}

/// The summary scan's progress after `done` of `total` roots are walked.
pub fn summary_walk_progress(done: usize, total: usize) -> (r: u8)
    requires
        1 <= total,
        done <= total,
    ensures
        r == spec_summary_walk_progress(done as int, total as int),
        18 <= r <= 60,
{
    let p: u128 = 18 + (done as u128) * 42 / (total as u128);
    proof {
        vstd::arithmetic::div_mod::lemma_div_is_ordered(
            done as int * 42,
            total as int * 42,
            total as int,
        );
        vstd::arithmetic::div_mod::lemma_div_by_multiple(42, total as int);
        vstd::arithmetic::div_mod::lemma_div_pos_is_pos(done as int * 42, total as int);
    }
    p as u8
}

/// Walking more roots never lowers the summary scan's progress.
pub proof fn lemma_summary_walk_progress_monotone(d1: int, d2: int, total: int)
    requires
        1 <= total,
        0 <= d1 <= d2 <= total,
    ensures
        spec_summary_walk_progress(d1, total) <= spec_summary_walk_progress(d2, total),
{
    vstd::arithmetic::div_mod::lemma_div_is_ordered(d1 * 42, d2 * 42, total);
}

/// The catalog scan scales linearly from 0 to 95 as roots complete; 100 is
/// emitted only once persistence is done.
pub open spec fn spec_catalog_progress(done: int, total: int) -> int
    recommends
        1 <= total,
        0 <= done <= total,
{
    let p = done * 100 / total;
    if p > 95 {
        95
    } else {
        p
    }
}

/// The catalog scan's progress after `done` of `total` roots are processed.
pub fn catalog_progress(done: usize, total: usize) -> (r: u8)
    requires
        1 <= total,
        done <= total,
    ensures
        r == spec_catalog_progress(done as int, total as int),
        r <= 95,
{
    let p: u128 = (done as u128) * 100 / (total as u128);
    proof {
        vstd::arithmetic::div_mod::lemma_div_is_ordered(
            done as int * 100,
            total as int * 100,
            total as int,
        );
        vstd::arithmetic::div_mod::lemma_div_by_multiple(100, total as int);
        vstd::arithmetic::div_mod::lemma_div_pos_is_pos(done as int * 100, total as int);
    }
    if p > 95 {
        95
    } else {
        p as u8
    }
}

/// Processing more roots never lowers the catalog scan's progress.
pub proof fn lemma_catalog_progress_monotone(d1: int, d2: int, total: int)
    requires
        1 <= total,
        0 <= d1 <= d2 <= total,
    ensures
        spec_catalog_progress(d1, total) <= spec_catalog_progress(d2, total),
{
    vstd::arithmetic::div_mod::lemma_div_is_ordered(d1 * 100, d2 * 100, total);
}

} // verus!
