//! Even distribution of a total over a number of parts.
//!
//! The first `total % parts` parts receive one unit more than the others.
//! The same rule divides work among threads and resources among tasks.

use vstd::prelude::*;

verus! {

/// What part number `idx` receives when `total` is distributed over `parts`.
pub open spec fn share(idx: nat, total: nat, parts: nat) -> nat
    recommends
        parts > 0,
{
    total / parts + if idx < total % parts {
        1nat
    } else {
        0nat
    }
}

/// What the parts before part number `idx` receive together.
pub open spec fn share_start(idx: nat, total: nat, parts: nat) -> nat
    recommends
        parts > 0,
    decreases idx,
{
    if idx == 0 {
        0
    } else {
        share_start((idx - 1) as nat, total, parts) + share((idx - 1) as nat, total, parts)
    }
}

/// The closed form of `share_start`.
pub proof fn lemma_share_start_closed_form(idx: nat, total: nat, parts: nat)
    requires
        parts > 0,
    ensures
        share_start(idx, total, parts) == idx * (total / parts) + if idx <= total % parts {
            idx
        } else {
            total % parts
        },
    decreases idx,
{
    let q = total / parts;
    if idx == 0 {
        assert(idx * q == 0) by (nonlinear_arith)
            requires
                idx == 0,
        ;
    } else {
        let prev = (idx - 1) as nat;
        lemma_share_start_closed_form(prev, total, parts);
        assert(idx * q == prev * q + q) by (nonlinear_arith)
            requires
                idx == prev + 1,
        ;
    }
}

/// Distribution loses nothing: the shares of all parts add up to the total,
/// also when there are more parts than units.
pub proof fn lemma_shares_add_up(total: nat, parts: nat)
    requires
        parts > 0,
    ensures
        share_start(parts, total, parts) == total,
{
    lemma_share_start_closed_form(parts, total, parts);
    assert(total == parts * (total / parts) + total % parts) by (nonlinear_arith)
        requires
            parts > 0,
    ;
    assert(total % parts < parts) by (nonlinear_arith)
        requires
            parts > 0,
    ;
}

/// The parts are laid out one after the other: a part ends where the next begins,
/// and no start lies beyond the total.
pub proof fn lemma_share_start_monotonic(i: nat, j: nat, total: nat, parts: nat)
    requires
        parts > 0,
        i <= j,
        j <= parts,
    ensures
        share_start(i, total, parts) <= share_start(j, total, parts),
        share_start(j, total, parts) <= total,
{
    let q = total / parts;
    let r = total % parts;
    lemma_share_start_closed_form(i, total, parts);
    lemma_share_start_closed_form(j, total, parts);
    assert(i * q <= j * q && j * q <= parts * q && total == parts * q + r) by (nonlinear_arith)
        requires
            i <= j,
            j <= parts,
            parts > 0,
            q == total / parts,
            r == total % parts,
    ;
}

/// No share exceeds the total.
pub proof fn lemma_share_bounded(idx: nat, total: nat, parts: nat)
    requires
        parts > 0,
    ensures
        share(idx, total, parts) <= total,
{
    let q = total / parts;
    let r = total % parts;
    assert(total == parts * q + r && r < parts && q * 1 <= parts * q) by (nonlinear_arith)
        requires
            parts > 0,
            q == total / parts,
            r == total % parts,
    ;
}

/// The number of units that thread number `thread_idx` of `threads` takes of `total`.
pub fn per_thread_amount(thread_idx: usize, total: usize, threads: usize) -> (amount: usize)
    requires
        threads > 0,
    ensures
        amount == share(thread_idx as nat, total as nat, threads as nat),
{
    let per_thread: usize = total / threads;
    let extras: usize = total % threads;
    proof {
        lemma_share_bounded(thread_idx as nat, total as nat, threads as nat);
    }
    if thread_idx < extras {
        per_thread + 1
    } else {
        per_thread
    }
}

} // verus!
