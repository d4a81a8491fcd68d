//! One atlas family at a single output resolution: a stack of raster layers,
//! each a multiple of the cell size in both directions.
//!
//! Inserting a cell grows the layer to the smallest multiple-of-size bounds
//! that contain both the old content and the new cell; growth never moves or
//! loses a pixel, so previously composed tiles keep their exact content.
use vstd::prelude::*;

use crate::codec::{decode_raster, decoded_rgba};
use crate::pos::TilePos;
use crate::raster::Raster;

verus! {

/// Why a downloaded layer image was rejected.
#[derive(Clone, Copy, Debug, PartialEq, Eq, Structural)]
pub enum LayerError {
    /// The bytes are not a readable image.
    Undecodable,
    /// The decoded image's sides are not multiples of the cell size.
    Misaligned,
}

/// An atlas for one output resolution: `size` is the square cell side, one
/// raster per layer.
pub struct Sheet {
    pub size: u32,
    pub layers: Vec<Raster>,
}

impl Sheet {
    /// Cell size positive, cells addressable, and every layer a well-formed
    /// buffer whose sides are multiples of the cell size.
    pub open spec fn wf(self) -> bool {
        &&& self.size > 0
        &&& self.size as int * self.size as int <= usize::MAX as int
        &&& forall|i: int|
            0 <= i < self.layers@.len() ==> (#[trigger] self.layers@[i]).wf()
                && self.layers@[i].width as int % self.size as int == 0
                && self.layers@[i].height as int % self.size as int == 0
    }

    /// A new atlas with no layers yet.
    pub fn new(size: u32) -> (s: Sheet)
        requires
            size > 0,
            size as int * size as int <= usize::MAX as int,
        ensures
            s.wf(),
            s.size == size,
            s.layers@.len() == 0,
    {
        Sheet { size, layers: Vec::new() }
    }

    /// Appends one blank, minimally sized layer.
    pub fn add_layer(&mut self)
        requires
            old(self).wf(),
        ensures
            final(self).wf(),
            final(self).size == old(self).size,
            final(self).layers@.len() == old(self).layers@.len() + 1,
            forall|i: int|
                0 <= i < old(self).layers@.len() ==> final(self).layers@[i] == old(self).layers@[i],
            final(self).layers@.last().width == old(self).size,
            final(self).layers@.last().height == old(self).size,
            forall|x: int, y: int|
                final(self).layers@.last().in_bounds(x, y) ==> final(self).layers@.last().pixel(
                    x,
                    y,
                ) == 0,
    {
        let layer = Raster::blank(self.size, self.size);
        proof {
            lemma_mod_self(self.size as int);
        }
        self.layers.push(layer);
    }

    /// Decodes downloaded bytes and appends them as the next layer; bytes
    /// that do not decode, or whose sides do not fit the cell grid, are
    /// refused and change nothing.
    pub fn load_layer(&mut self, data: &[u8]) -> (r: Result<(), LayerError>)
        requires
            old(self).wf(),
        ensures
            final(self).wf(),
            final(self).size == old(self).size,
            match r {
                Result::Ok(()) => {
                    &&& decoded_rgba(data@) matches Some((w, h, px))
                    &&& final(self).layers@.len() == old(self).layers@.len() + 1
                    &&& forall|i: int|
                        0 <= i < old(self).layers@.len() ==> final(self).layers@[i] == old(self).layers@[i]
                    &&& final(self).layers@.last().width as int % old(self).size as int == 0
                    &&& final(self).layers@.last().height as int % old(self).size as int == 0
                    &&& decoded_rgba(data@) == Some(
                        (
                            final(self).layers@.last().width,
                            final(self).layers@.last().height,
                            final(self).layers@.last().pixels@,
                        ),
                    )
                },
                Result::Err(LayerError::Undecodable) => *final(self) == *old(self) && decoded_rgba(
                    data@,
                ) is None,
                Result::Err(LayerError::Misaligned) => *final(self) == *old(self) && (decoded_rgba(
                    data@,
                ) matches Some((w, h, px)) && !(w as int % old(self).size as int == 0 && h as int
                    % old(self).size as int == 0)),
            },
    {
        match decode_raster(data) {
            None => Err(LayerError::Undecodable),
            Some(layer) => {
                if layer.width % self.size == 0 && layer.height % self.size == 0 {
                    self.layers.push(layer);
                    Ok(())
                } else {
                    Err(LayerError::Misaligned)
                }
            },
        }
    }
    /// The bounds the layer for `pos` will have after inserting there: at
    /// least the current bounds (one blank cell square for a fresh layer),
    /// and at least the cell ends of `pos`.
    pub open spec fn target_width(self, pos: TilePos) -> int {
        let bw = if pos.z as int == self.layers@.len() {
            self.size as int
        } else {
            self.layers@[pos.z as int].width as int
        };
        let nw = (pos.x as int + 1) * self.size as int;
        if nw > bw {
            nw
        } else {
            bw
        }
    }

    /// See `target_width`.
    pub open spec fn target_height(self, pos: TilePos) -> int {
        let bh = if pos.z as int == self.layers@.len() {
            self.size as int
        } else {
            self.layers@[pos.z as int].height as int
        };
        let nh = (pos.y as int + 1) * self.size as int;
        if nh > bh {
            nh
        } else {
            bh
        }
    }

    /// Whether a layer coordinate lies inside the destination cell of `pos`.
    pub open spec fn in_cell(self, pos: TilePos, a: int, b: int) -> bool {
        pos.x as int * self.size as int <= a < (pos.x as int + 1) * self.size as int
            && pos.y as int * self.size as int <= b < (pos.y as int + 1) * self.size as int
    }

    /// Writes a composed cell into the layer of `pos`, growing as needed:
    /// a fresh layer is appended when `pos.z` is the next index; the layer is
    /// grown to the smallest bounds holding both the old content and the new
    /// cell; the cell's pixels are copied in place. Every pixel outside the
    /// destination cell keeps its old value (blank where newly exposed), so
    /// growth corrupts nothing already composed.
    pub fn insert(&mut self, pos: TilePos, img: &Raster)
        requires
            old(self).wf(),
            img.wf(),
            img.width == old(self).size,
            img.height == old(self).size,
            pos.z as int <= old(self).layers@.len(),
            (pos.x as int + 1) * old(self).size as int <= u32::MAX as int,
            (pos.y as int + 1) * old(self).size as int <= u32::MAX as int,
            old(self).target_width(pos) * old(self).target_height(pos) <= usize::MAX as int,
        ensures
            final(self).wf(),
            final(self).size == old(self).size,
            final(self).layers@.len() == (if pos.z as int == old(self).layers@.len() {
                old(self).layers@.len() as int + 1
            } else {
                old(self).layers@.len() as int
            }),
            forall|i: int|
                0 <= i < final(self).layers@.len() && i != pos.z as int ==> final(self).layers@[i]
                    == old(self).layers@[i],
            final(self).layers@[pos.z as int].width == old(self).target_width(pos),
            final(self).layers@[pos.z as int].height == old(self).target_height(pos),
            forall|dx: int, dy: int|
                0 <= dx < old(self).size as int && 0 <= dy < old(self).size as int ==> final(self).layers@[pos.z as int].pixel(
                    pos.x as int * old(self).size as int + dx,
                    pos.y as int * old(self).size as int + dy,
                ) == img.pixel(dx, dy),
            forall|a: int, b: int|
                final(self).layers@[pos.z as int].in_bounds(a, b) && !old(self).in_cell(pos, a, b)
                    ==> final(self).layers@[pos.z as int].pixel(a, b) == (if (pos.z as int) < old(self).layers@.len() && old(self).layers@[pos.z as int].in_bounds(a, b) {
                    old(self).layers@[pos.z as int].pixel(a, b)
                } else {
                    0u32
                }),
    {
        let ghost s0 = *self;
        if pos.z as usize == self.layers.len() {
            self.add_layer();
        }
        let z: usize = pos.z as usize;
        let size = self.size;
        proof {
            assert(pos.x as int + 1 <= (pos.x as int + 1) * size as int) by (nonlinear_arith)
                requires size as int >= 1, pos.x as int >= 0;
            assert(pos.y as int + 1 <= (pos.y as int + 1) * size as int) by (nonlinear_arith)
                requires size as int >= 1, pos.y as int >= 0;
            assert((pos.x as int + 1) * size as int == pos.x as int * size as int + size as int)
                by (nonlinear_arith);
            assert((pos.y as int + 1) * size as int == pos.y as int * size as int + size as int)
                by (nonlinear_arith);
        }
        let nw: u32 = (pos.x + 1) * size;
        let nh: u32 = (pos.y + 1) * size;
        let mut layer = self.layers.remove(z);
        let ghost base = layer;
        let tw: u32 = if nw > layer.width {
            nw
        } else {
            layer.width
        };
        let th: u32 = if nh > layer.height {
            nh
        } else {
            layer.height
        };
        proof {
            assert(tw as int == s0.target_width(pos));
            assert(th as int == s0.target_height(pos));
        }
        if tw > layer.width || th > layer.height {
            let g = layer.grown(tw, th);
            layer = g;
        }
        let bx: u32 = pos.x * size;
        let by: u32 = pos.y * size;
        let mut dy: u32 = 0;
        while dy < size
            invariant
                dy <= size,
                size == s0.size,
                img.wf(),
                img.width == size,
                img.height == size,
                layer.wf(),
                layer.width == tw,
                layer.height == th,
                bx as int == pos.x as int * size as int,
                by as int == pos.y as int * size as int,
                bx as int + size as int <= tw as int,
                by as int + size as int <= th as int,
                base.wf(),
                base.width <= tw,
                base.height <= th,
                forall|dx: int, b: int|
                    0 <= dx < size as int && 0 <= b < dy as int ==> layer.pixel(
                        bx as int + dx,
                        by as int + b,
                    ) == img.pixel(dx, b),
                forall|a: int, b: int|
                    layer.in_bounds(a, b) && !(bx as int <= a < bx as int + size as int
                        && by as int <= b < by as int + dy as int) ==> layer.pixel(a, b) == (if base.in_bounds(a, b) {
                        base.pixel(a, b)
                    } else {
                        0u32
                    }),
            decreases size - dy,
        {
            let mut dx: u32 = 0;
            while dx < size
                invariant
                    dx <= size,
                    dy < size,
                    size == s0.size,
                    img.wf(),
                    img.width == size,
                    img.height == size,
                    layer.wf(),
                    layer.width == tw,
                    layer.height == th,
                    bx as int + size as int <= tw as int,
                    by as int + size as int <= th as int,
                    forall|c: int, b: int|
                        0 <= c < size as int && 0 <= b < dy as int ==> layer.pixel(
                            bx as int + c,
                            by as int + b,
                        ) == img.pixel(c, b),
                    forall|c: int|
                        0 <= c < dx as int ==> layer.pixel(bx as int + c, by as int + dy as int)
                            == img.pixel(c, dy as int),
                    forall|a: int, b: int|
                        layer.in_bounds(a, b) && !(bx as int <= a < bx as int + size as int
                            && by as int <= b < by as int + dy as int) && !(bx as int <= a
                            < bx as int + dx as int && b == by as int + dy as int) ==> layer.pixel(
                            a,
                            b,
                        ) == (if base.in_bounds(a, b) {
                            base.pixel(a, b)
                        } else {
                            0u32
                        }),
                decreases size - dx,
            {
                let v = img.get(dx, dy);
                layer.set(bx + dx, by + dy, v);
                dx = dx + 1;
            }
            dy = dy + 1;
        }
        self.layers.insert(z, layer);
        proof {
            lemma_multiple_mod(pos.x as int + 1, size as int);
            lemma_multiple_mod(pos.y as int + 1, size as int);
            assert(self.layers@[z as int] == layer);
            assert forall|i: int|
                0 <= i < self.layers@.len() && i != pos.z as int implies self.layers@[i]
                == s0.layers@[i] by {
            }
        }
    }
}

/// A multiple of a positive number leaves no remainder.
proof fn lemma_multiple_mod(k: int, s: int)
    requires
        s > 0,
        k >= 0,
    ensures
        (k * s) % s == 0,
{
    vstd::arithmetic::div_mod::lemma_mod_multiples_basic(k, s);
}

/// A positive number divides itself.
proof fn lemma_mod_self(s: int)
    requires
        s > 0,
    ensures
        s % s == 0,
{
}

} // verus!
