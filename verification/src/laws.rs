//! Laws of the spiral allocator.
//!
//! `fresh_run` models a run that starts with no occupancy and allocates
//! repeatedly, committing each returned position at once — exactly what
//! `Manager::lookup` is proved to do for new names. The laws: no position is
//! ever returned twice in one run, and allocation for a known name changes
//! nothing (stability, stated on `Manager::lookup` itself).
use vstd::prelude::*;

use crate::model::{first_free, lemma_first_free, max_layer, occ_contains};
use crate::pos::{cursor_pos, cursor_wf, Cursor, TilePos};

verus! {

/// The occupancy and cursor after `n` allocations from a fresh start.
pub open spec fn fresh_run(n: nat) -> (Seq<TilePos>, Cursor)
    decreases n,
{
    if n == 0 {
        (Seq::empty(), Cursor { ring: 0, offset: 0, layer: 0 })
    } else {
        let prior = fresh_run((n - 1) as nat);
        let ff = first_free(prior.0, prior.1);
        (prior.0.push(cursor_pos(ff)), ff)
    }
}

/// The position the `k`-th allocation of a fresh run returns (counted from
/// zero).
pub open spec fn fresh_alloc(k: nat) -> TilePos {
    cursor_pos(first_free(fresh_run(k).0, fresh_run(k).1))
}

/// A fresh run stays well formed: the cursor is valid and the occupied
/// layers stay far below the layer counter's range, so every step is
/// defined.
pub proof fn lemma_fresh_run_wf(n: nat)
    requires
        n <= u32::MAX,
    ensures
        cursor_wf(fresh_run(n).1),
        fresh_run(n).0.len() == n,
        max_layer(fresh_run(n).0) < n,
        fresh_run(n).1.layer <= n,
    decreases n,
{
    if n > 0 {
        let m = (n - 1) as nat;
        lemma_fresh_run_wf(m);
        let prior = fresh_run(m);
        lemma_first_free(prior.0, prior.1);
        let ff = first_free(prior.0, prior.1);
        lemma_max_layer_push(prior.0, cursor_pos(ff));
    }
}

/// Pushing a position moves the highest occupied layer to at most the
/// larger of the old maximum and the new position's layer.
proof fn lemma_max_layer_push(occ: Seq<TilePos>, p: TilePos)
    ensures
        max_layer(occ.push(p)) == if p.z as int >= max_layer(occ) {
            p.z as int
        } else {
            max_layer(occ)
        },
{
    assert(occ.push(p).drop_last() =~= occ);
}

/// Every position allocated before step `n` is occupied at step `n`.
proof fn lemma_fresh_run_contains(k: nat, n: nat)
    requires
        k < n <= u32::MAX,
    ensures
        occ_contains(fresh_run(n).0, fresh_alloc(k)),
    decreases n,
{
    let m = (n - 1) as nat;
    lemma_fresh_run_wf(m);
    let prior = fresh_run(m);
    if k == m {
        assert(fresh_run(n).0.last() == fresh_alloc(k));
    } else {
        lemma_fresh_run_contains(k, m);
        let i = choose|i: int| 0 <= i < prior.0.len() && prior.0[i] == fresh_alloc(k);
        assert(fresh_run(n).0[i] == fresh_alloc(k));
    }
}

/// Law: a fresh run never returns the same position twice. Each allocation
/// returns a position free at its step and commits it, so all returned
/// positions are pairwise distinct.
pub proof fn lemma_fresh_run_distinct(i: nat, j: nat)
    requires
        i < j,
        j < u32::MAX,
    ensures
        fresh_alloc(i) != fresh_alloc(j),
{
    lemma_fresh_run_contains(i, j);
    lemma_fresh_run_wf(j);
    lemma_first_free(fresh_run(j).0, fresh_run(j).1);
}

} // verus!
