//! Grid positions and the growing-square spiral cursor that enumerates them.
//!
//! A tile position is a triple `(x, y, z)`; `z` is the layer. The allocator
//! walks candidate positions in a fixed "growing square" order inside each
//! layer: for a cursor `(ring, offset, layer)` the candidate is `(offset,
//! ring)` while `offset < ring`, and `(ring, offset - ring)` otherwise. When
//! `offset` passes `2 * ring` the next ring starts, and when `ring` reaches
//! `RING_LIMIT` the next layer starts. Every candidate inside a layer is
//! distinct, which is what makes allocation collision-free.
use vstd::prelude::*;

verus! {

/// Rings per layer: when the cursor's ring reaches this bound it moves to the
/// next layer, so one layer holds positions with `x < 64` and `y < 64`.
pub const RING_LIMIT: u32 = 64;

/// Number of cursor steps in one layer: `RING_LIMIT * RING_LIMIT`.
pub const LAYER_SPAN: u32 = 4096;

/// A grid coordinate for one tile: column `x`, row `y`, layer `z`.
#[derive(Clone, Copy, PartialEq, Eq, Structural, Debug, Hash)]
pub struct TilePos {
    pub x: u32,
    pub y: u32,
    pub z: u32,
}

/// The spiral cursor: `ring` is the current square shell, `offset` the step
/// along that shell, `layer` the current depth.
#[derive(Clone, Copy, PartialEq, Eq, Structural, Debug)]
pub struct Cursor {
    pub ring: u32,
    pub offset: u32,
    pub layer: u32,
}

/// A cursor is well formed while its offset stays on the current shell and
/// its ring stays below the per-layer bound.
pub open spec fn cursor_wf(c: Cursor) -> bool {
    c.offset <= 2 * c.ring && c.ring < RING_LIMIT
}

/// Position of a cursor in the global enumeration order: shell `r` of a layer
/// starts `r * r` steps into the layer, and each layer spans `LAYER_SPAN`
/// steps.
pub open spec fn cursor_idx(c: Cursor) -> int {
    c.layer as int * LAYER_SPAN as int + c.ring as int * c.ring as int + c.offset as int
}

/// The candidate position a cursor denotes.
pub open spec fn cursor_pos(c: Cursor) -> TilePos {
    if c.offset < c.ring {
        TilePos { x: c.offset, y: c.ring, z: c.layer }
    } else {
        TilePos { x: c.ring, y: (c.offset - c.ring) as u32, z: c.layer }
    }
}

/// Where a position sits in the enumeration order; inverse of `cursor_pos` on
/// positions whose coordinates lie inside one layer's square.
pub open spec fn pos_index(p: TilePos) -> int {
    if p.x < p.y {
        p.z as int * LAYER_SPAN as int + p.y as int * p.y as int + p.x as int
    } else {
        p.z as int * LAYER_SPAN as int + p.x as int * p.x as int + p.x as int + p.y as int
    }
}

/// A position the spiral can reach: both coordinates inside one layer's
/// square.
pub open spec fn pos_in_grid(p: TilePos) -> bool {
    p.x < RING_LIMIT && p.y < RING_LIMIT
}

/// A well-formed cursor denotes an in-grid position whose enumeration index
/// is exactly the cursor's index.
pub proof fn lemma_cursor_pos_index(c: Cursor)
    requires
        cursor_wf(c),
    ensures
        pos_in_grid(cursor_pos(c)),
        pos_index(cursor_pos(c)) == cursor_idx(c),
{
    let p = cursor_pos(c);
    if c.offset < c.ring {
        assert(p.x < p.y);
    } else {
        assert(p.y <= p.x);
        assert(pos_index(p) == p.z as int * LAYER_SPAN as int + c.ring as int * c.ring as int
            + c.offset as int);
    }
}

/// Within the grid, the enumeration index determines the position: two
/// in-grid positions with equal indices are equal.
pub proof fn lemma_pos_index_injective(p: TilePos, q: TilePos)
    requires
        pos_in_grid(p),
        pos_in_grid(q),
        pos_index(p) == pos_index(q),
    ensures
        p == q,
{
    lemma_pos_index_bounds(p);
    lemma_pos_index_bounds(q);
    assert(p.z == q.z) by {
        assert(pos_index(p) == p.z as int * 4096 + layer_offset(p));
        assert(pos_index(q) == q.z as int * 4096 + layer_offset(q));
        assert(0 <= layer_offset(p) < 4096);
        assert(0 <= layer_offset(q) < 4096);
        if p.z < q.z {
            assert(p.z as int * 4096 + 4096 <= q.z as int * 4096) by (nonlinear_arith)
                requires p.z as int + 1 <= q.z as int;
            assert(false);
        }
        if q.z < p.z {
            assert(q.z as int * 4096 + 4096 <= p.z as int * 4096) by (nonlinear_arith)
                requires q.z as int + 1 <= p.z as int;
            assert(false);
        }
    }
    let a = pos_side(p);
    let b = pos_side(q);
    assert(a == b) by {
        lemma_side_squares(p);
        lemma_side_squares(q);
        if a < b {
            assert((a + 1) * (a + 1) <= b * b) by (nonlinear_arith)
                requires 0 <= a, a + 1 <= b;
            assert(false);
        }
        if b < a {
            assert((b + 1) * (b + 1) <= a * a) by (nonlinear_arith)
                requires 0 <= b, b + 1 <= a;
            assert(false);
        }
    }
    if p.x < p.y && !(q.x < q.y) {
        assert(layer_offset(p) < a * a + a && layer_offset(q) >= a * a + a);
        assert(false);
    }
    if !(p.x < p.y) && q.x < q.y {
        assert(layer_offset(p) >= a * a + a && layer_offset(q) < a * a + a);
        assert(false);
    }
}

/// The larger coordinate of a position: the shell it sits on.
pub open spec fn pos_side(p: TilePos) -> int {
    if p.x < p.y {
        p.y as int
    } else {
        p.x as int
    }
}

/// A position's offset into its layer's enumeration.
pub open spec fn layer_offset(p: TilePos) -> int {
    if p.x < p.y {
        p.y as int * p.y as int + p.x as int
    } else {
        p.x as int * p.x as int + p.x as int + p.y as int
    }
}

/// The layer offset of a shell-`s` position lies in `[s * s, (s + 1) * (s + 1))`.
proof fn lemma_side_squares(p: TilePos)
    ensures
        pos_side(p) * pos_side(p) <= layer_offset(p),
        layer_offset(p) < (pos_side(p) + 1) * (pos_side(p) + 1),
        p.x < p.y ==> layer_offset(p) < pos_side(p) * pos_side(p) + pos_side(p),
        !(p.x < p.y) ==> layer_offset(p) >= pos_side(p) * pos_side(p) + pos_side(p),
{
    let s = pos_side(p);
    assert((s + 1) * (s + 1) == s * s + 2 * s + 1) by (nonlinear_arith);
}

/// An in-grid position's layer offset stays inside one layer's span.
pub proof fn lemma_pos_index_bounds(p: TilePos)
    requires
        pos_in_grid(p),
    ensures
        0 <= layer_offset(p) < LAYER_SPAN as int,
        pos_index(p) == p.z as int * LAYER_SPAN as int + layer_offset(p),
{
    let s = pos_side(p);
    lemma_side_squares(p);
    assert(s <= 63);
    assert((s + 1) * (s + 1) <= 64 * 64) by (nonlinear_arith)
        requires 0 <= s <= 63;
}

/// Stepping a cursor: advance the offset, roll over to the next ring at the
/// end of a shell, and to the next layer at the last ring.
pub open spec fn cursor_step(c: Cursor) -> Cursor {
    if c.offset + 1 > 2 * c.ring {
        if c.ring + 1 == RING_LIMIT {
            Cursor { ring: 0, offset: 0, layer: (c.layer + 1) as u32 }
        } else {
            Cursor { ring: (c.ring + 1) as u32, offset: 0, layer: c.layer }
        }
    } else {
        Cursor { ring: c.ring, offset: (c.offset + 1) as u32, layer: c.layer }
    }
}

/// One step moves the cursor exactly one place forward in enumeration order
/// and keeps it well formed (as long as the layer counter does not exhaust
/// `u32`).
pub proof fn lemma_cursor_step(c: Cursor)
    requires
        cursor_wf(c),
        c.layer < u32::MAX,
    ensures
        cursor_wf(cursor_step(c)),
        cursor_idx(cursor_step(c)) == cursor_idx(c) + 1,
{
    let r = c.ring as int;
    let l = c.layer as int;
    if c.offset + 1 > 2 * c.ring {
        assert(c.offset == 2 * c.ring);
        assert((r + 1) * (r + 1) == r * r + 2 * r + 1) by (nonlinear_arith);
        if c.ring + 1 == RING_LIMIT {
            assert(r == 63);
            assert(cursor_idx(c) == l * 4096 + 63 * 63 + 126);
            assert(cursor_idx(cursor_step(c)) == (l + 1) * 4096);
            assert((l + 1) * 4096 == l * 4096 + 4096) by (nonlinear_arith);
        } else {
            assert(cursor_idx(cursor_step(c)) == l * 4096 + (r + 1) * (r + 1));
        }
    }
}

} // verus!
