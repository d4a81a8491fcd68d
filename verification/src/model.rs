//! Mathematical model of spiral allocation over a set of occupied positions.
//!
//! The occupancy is a sequence of positions (the order mirrors the table the
//! manager keeps). `first_free` walks the spiral from a cursor to the first
//! unoccupied candidate; it is the specification the executable allocator is
//! proved against, and the ground for the allocator's laws.
use vstd::prelude::*;

use crate::pos::{
    cursor_idx, cursor_pos, cursor_step, cursor_wf, lemma_cursor_pos_index, lemma_cursor_step,
    lemma_pos_index_injective, Cursor, TilePos, LAYER_SPAN,
};

verus! {

/// Whether some occupied position equals `p`.
pub open spec fn occ_contains(occ: Seq<TilePos>, p: TilePos) -> bool {
    exists|k: int| 0 <= k < occ.len() && occ[k] == p
}

/// The highest occupied layer, `-1` when nothing is occupied.
pub open spec fn max_layer(occ: Seq<TilePos>) -> int
    decreases occ.len(),
{
    if occ.len() == 0 {
        -1
    } else if occ.last().z as int >= max_layer(occ.drop_last()) {
        occ.last().z as int
    } else {
        max_layer(occ.drop_last())
    }
}

/// Every occupied position sits at or below the highest occupied layer.
pub proof fn lemma_max_layer(occ: Seq<TilePos>, p: TilePos)
    requires
        occ_contains(occ, p),
    ensures
        p.z as int <= max_layer(occ),
        max_layer(occ) >= 0,
    decreases occ.len(),
{
    let k = choose|k: int| 0 <= k < occ.len() && occ[k] == p;
    if k == occ.len() - 1 {
    } else {
        assert(occ.drop_last()[k] == p);
        lemma_max_layer(occ.drop_last(), p);
    }
}

/// The first unoccupied spiral candidate at or after cursor `c`.
///
/// Each step from an occupied candidate moves one place forward; the search
/// cannot pass the first cursor of the layer above the highest occupied one,
/// which bounds the recursion.
pub open spec fn first_free(occ: Seq<TilePos>, c: Cursor) -> Cursor
    decreases (max_layer(occ) + 2) * LAYER_SPAN as int - cursor_idx(c)
        when cursor_wf(c) && max_layer(occ) < u32::MAX as int
        via first_free_decreases
{
    if !occ_contains(occ, cursor_pos(c)) {
        c
    } else {
        first_free(occ, cursor_step(c))
    }
}

#[via_fn]
proof fn first_free_decreases(occ: Seq<TilePos>, c: Cursor) {
    if occ_contains(occ, cursor_pos(c)) {
        lemma_max_layer(occ, cursor_pos(c));
        assert(c.layer as int <= max_layer(occ));
        lemma_cursor_step(c);
        assert((c.ring as int) * (c.ring as int) + (c.offset as int) < 4096) by {
            let r = c.ring as int;
            assert(r * r <= 63 * 63) by (nonlinear_arith)
                requires 0 <= r <= 63;
        }
        assert((max_layer(occ) + 2) * LAYER_SPAN as int - cursor_idx(cursor_step(c)) >= 0) by {
            let m = max_layer(occ);
            let l = c.layer as int;
            assert((m + 2) * 4096 - (l * 4096 + 4096) == (m - l) * 4096 + 4096);
            assert((m - l) * 4096 >= 0) by (nonlinear_arith)
                requires m - l >= 0;
        }
    }
}

/// What `first_free` finds: a well-formed cursor, no earlier than the start,
/// denoting a free position, with every candidate strictly before it
/// occupied.
pub proof fn lemma_first_free(occ: Seq<TilePos>, c: Cursor)
    requires
        cursor_wf(c),
        max_layer(occ) < u32::MAX as int,
    ensures
        cursor_wf(first_free(occ, c)),
        cursor_idx(first_free(occ, c)) >= cursor_idx(c),
        !occ_contains(occ, cursor_pos(first_free(occ, c))),
        forall|d: Cursor|
            cursor_wf(d) && cursor_idx(c) <= cursor_idx(d) < cursor_idx(first_free(occ, c))
                ==> occ_contains(occ, #[trigger] cursor_pos(d)),
        first_free(occ, c).layer as int <= max_layer(occ) + 1 || first_free(occ, c) == c,
    decreases (max_layer(occ) + 2) * LAYER_SPAN as int - cursor_idx(c),
{
    if occ_contains(occ, cursor_pos(c)) {
        lemma_max_layer(occ, cursor_pos(c));
        lemma_cursor_step(c);
        assert((c.ring as int) * (c.ring as int) + (c.offset as int) < 4096) by {
            let r = c.ring as int;
            assert(r * r <= 63 * 63) by (nonlinear_arith)
                requires 0 <= r <= 63;
        }
        assert((max_layer(occ) + 2) * LAYER_SPAN as int - cursor_idx(cursor_step(c)) >= 0) by {
            let m = max_layer(occ);
            let l = c.layer as int;
            assert((m + 2) * 4096 - (l * 4096 + 4096) == (m - l) * 4096 + 4096);
            assert((m - l) * 4096 >= 0) by (nonlinear_arith)
                requires m - l >= 0;
        }
        lemma_first_free(occ, cursor_step(c));
        let ff = first_free(occ, c);
        assert forall|d: Cursor|
            cursor_wf(d) && cursor_idx(c) <= cursor_idx(d) < cursor_idx(ff) implies occ_contains(
            occ,
            #[trigger] cursor_pos(d),
        ) by {
            if cursor_idx(d) == cursor_idx(c) {
                lemma_cursor_idx_injective(d, c);
            }
        }
    }
}

/// Some occupied position sits on the highest occupied layer.
pub proof fn lemma_max_layer_attained(occ: Seq<TilePos>)
    requires
        occ.len() > 0,
    ensures
        exists|p: TilePos| occ_contains(occ, p) && p.z as int == max_layer(occ),
    decreases occ.len(),
{
    if occ.last().z as int >= max_layer(occ.drop_last()) {
        assert(occ_contains(occ, occ.last()) && occ.last().z as int == max_layer(occ));
    } else {
        lemma_max_layer_attained(occ.drop_last());
        let p = choose|p: TilePos|
            occ_contains(occ.drop_last(), p) && p.z as int == max_layer(occ.drop_last());
        let k = choose|k: int| 0 <= k < occ.drop_last().len() && occ.drop_last()[k] == p;
        assert(occ[k] == p);
        assert(occ_contains(occ, p) && p.z as int == max_layer(occ));
    }
}

/// Occupancies holding the same positions have the same highest layer.
pub proof fn lemma_max_layer_extensional(occ1: Seq<TilePos>, occ2: Seq<TilePos>)
    requires
        forall|p: TilePos| occ_contains(occ1, p) <==> occ_contains(occ2, p),
    ensures
        max_layer(occ1) == max_layer(occ2),
{
    if occ1.len() == 0 {
        if occ2.len() > 0 {
            assert(occ_contains(occ2, occ2[0]));
            assert(false);
        }
    } else if occ2.len() == 0 {
        assert(occ_contains(occ1, occ1[0]));
        assert(false);
    } else {
        lemma_max_layer_attained(occ1);
        lemma_max_layer_attained(occ2);
        let p1 = choose|p: TilePos| occ_contains(occ1, p) && p.z as int == max_layer(occ1);
        let p2 = choose|p: TilePos| occ_contains(occ2, p) && p.z as int == max_layer(occ2);
        lemma_max_layer(occ2, p1);
        lemma_max_layer(occ1, p2);
    }
}

/// Law: where allocation lands depends only on which positions are occupied
/// and on the cursor, not on the order the occupancy was assembled in.
pub proof fn lemma_first_free_extensional(occ1: Seq<TilePos>, occ2: Seq<TilePos>, c: Cursor)
    requires
        cursor_wf(c),
        max_layer(occ1) < u32::MAX as int,
        forall|p: TilePos| occ_contains(occ1, p) <==> occ_contains(occ2, p),
    ensures
        first_free(occ1, c) == first_free(occ2, c),
    decreases (max_layer(occ1) + 2) * LAYER_SPAN as int - cursor_idx(c),
{
    lemma_max_layer_extensional(occ1, occ2);
    if occ_contains(occ1, cursor_pos(c)) {
        lemma_max_layer(occ1, cursor_pos(c));
        lemma_cursor_step(c);
        assert((c.ring as int) * (c.ring as int) + (c.offset as int) < 4096) by {
            let r = c.ring as int;
            assert(r * r <= 63 * 63) by (nonlinear_arith)
                requires 0 <= r <= 63;
        }
        assert((max_layer(occ1) + 2) * LAYER_SPAN as int - cursor_idx(cursor_step(c)) >= 0) by {
            let m = max_layer(occ1);
            let l = c.layer as int;
            assert((m + 2) * 4096 - (l * 4096 + 4096) == (m - l) * 4096 + 4096);
            assert((m - l) * 4096 >= 0) by (nonlinear_arith)
                requires m - l >= 0;
        }
        lemma_first_free_extensional(occ1, occ2, cursor_step(c));
    }
}

/// Well-formed cursors with the same enumeration index are equal.
pub proof fn lemma_cursor_idx_injective(c1: Cursor, c2: Cursor)
    requires
        cursor_wf(c1),
        cursor_wf(c2),
        cursor_idx(c1) == cursor_idx(c2),
    ensures
        c1 == c2,
{
    lemma_cursor_pos_index(c1);
    lemma_cursor_pos_index(c2);
    lemma_pos_index_injective(cursor_pos(c1), cursor_pos(c2));
    lemma_cursor_pos_injective(c1, c2);
}

/// Well-formed cursors denoting the same position are equal.
pub proof fn lemma_cursor_pos_injective(c1: Cursor, c2: Cursor)
    requires
        cursor_wf(c1),
        cursor_wf(c2),
        cursor_pos(c1) == cursor_pos(c2),
    ensures
        c1 == c2,
{
}

} // verus!
