//! Screen-sized map from cells to the node drawn on them.
use vstd::prelude::*;
use crate::app::viewport::Viewport;
use crate::node::NodeId;

verus! {

/// For each screen cell `(x, y)`, the id of the node that was last rendered there.
#[derive(Debug)]
pub struct HitMap {
    map: Vec<Vec<NodeId>>,
}

/// A `height` by `width` grid holding `NodeId(0)` in every cell.
pub open spec fn empty_grid(width: nat, height: nat) -> Seq<Seq<NodeId>> {
    Seq::new(height, |i: int| Seq::new(width, |j: int| NodeId(0)))
}

impl HitMap {
    /// The rows of the map, top to bottom.
    pub closed spec fn view(&self) -> Seq<Seq<NodeId>> {
        self.map@.map_values(|row: Vec<NodeId>| row@)
    }

    /// Every row has the same number of cells.
    pub closed spec fn wf(&self) -> bool {
        forall|i: int| 0 <= i < self.map@.len() ==> #[trigger] self.map@[i]@.len() == self.row_len()
    }

    /// Number of cells in each row (zero for a map without rows).
    pub closed spec fn row_len(&self) -> nat {
        if self.map@.len() == 0 { 0 } else { self.map@[0]@.len() }
    }

    /// Number of cells per row.
    pub open spec fn width(&self) -> nat {
        if self.view().len() == 0 { 0 } else { self.view()[0].len() }
    }

    /// The id at `(x, y)`, if the cell exists.
    pub open spec fn spec_get(&self, x: int, y: int) -> Option<NodeId> {
        if 0 <= y < self.view().len() && 0 <= x < self.view()[y].len() {
            Some(self.view()[y][x])
        } else {
            None
        }
    }

    proof fn lemma_view_row(&self, i: int)
        requires
            0 <= i < self.map@.len(),
        ensures
            self.view()[i] == self.map@[i]@,
            self.view().len() == self.map@.len(),
    {
    }

    /// A map of `height` rows of `width` cells, all `NodeId(0)`.
    pub fn new(width: usize, height: usize) -> (r: Self)
        ensures
            r.wf(),
            r.view() == empty_grid(width as nat, height as nat),
    {
        let mut map: Vec<Vec<NodeId>> = Vec::new();
        let mut i: usize = 0;
        while i < height
            invariant
                i <= height,
                map@.len() == i,
                forall|k: int| 0 <= k < i ==> #[trigger] map@[k]@ == Seq::new(width as nat, |j: int| NodeId(0)),
            decreases height - i,
        {
            map.push(zero_row(width));
            i = i + 1;
        }
        let r = Self { map };
        proof {
            assert(r.view() =~= empty_grid(width as nat, height as nat));
        }
        r
    }

    /// Returns the id of the cell at `x, y`
    pub fn get(&self, x: u16, y: u16) -> (r: Option<NodeId>)
        ensures
            r == self.spec_get(x as int, y as int),
    {
        let yi = y as usize;
        let xi = x as usize;
        if yi < self.map.len() {
            proof {
                self.lemma_view_row(yi as int);
            }
            if xi < self.map[yi].len() {
                return Some(self.map[yi][xi]);
            }
        }
        None
    }

    /// Resizes the hitmap to the new size, resets all cells with `NodeId(0)`
    pub fn resize(&mut self, width: u16, height: u16)
        ensures
            final(self).wf(),
            final(self).view() == empty_grid(width as nat, height as nat),
    {
        *self = Self::new(width as usize, height as usize);
    }

    /// Sets the cells of the viewport's area that the map has to `id`: columns from
    /// `viewport.min.0` up to `viewport.max.0`, rows from `viewport.min.1` up to `viewport.max.1`,
    /// each bound clipped to the map's size taken as `u16`.
    pub fn add_target_area(&mut self, id: NodeId, viewport: &Viewport)
        requires
            old(self).wf(),
        ensures
            final(self).wf(),
            final(self).view().len() == old(self).view().len(),
            final(self).width() == old(self).width(),
            forall|i: int| 0 <= i < final(self).view().len() ==> #[trigger] final(self).view()[i].len() == old(self).view()[i].len(),
            forall|y: int, x: int|
                0 <= y < old(self).view().len() && 0 <= x < old(self).width() ==> #[trigger] final(self).view()[y][x] == (
                if in_area(x, y, viewport, old(self).view().len(), old(self).width()) {
                    id
                } else {
                    old(self).view()[y][x]
                }),
    {
        let (x, y) = viewport.min;
        let (width, height) = viewport.max;
        let self_height = self.map.len() as u16;
        let self_width = if self.map.len() > 0 { self.map[0].len() as u16 } else { 0 };
        let height = if height <= self_height { height } else { self_height };
        let width = if width <= self_width { width } else { self_width };
        let ghost old_map = self.map@;
        let ghost rl = self.row_len();
        proof {
            lemma_truncate_le(old_map.len() as usize);
            if old_map.len() > 0 {
                lemma_truncate_le(rl as usize);
            }
        }
        let mut i: u16 = y;
        while i < height
            invariant
                y <= i <= height || (i == y && y >= height),
                height as int <= old_map.len(),
                width as int <= rl,
                rl == (if old_map.len() == 0 { 0 } else { old_map[0]@.len() }),
                self.map@.len() == old_map.len(),
                forall|k: int| 0 <= k < self.map@.len() ==> #[trigger] self.map@[k]@.len() == rl,
                forall|k: int|
                    0 <= k < self.map@.len() ==> #[trigger] self.map@[k]@ == (if y <= k < i {
                        fill_row(old_map[k]@, x as int, width as int, id)
                    } else {
                        old_map[k]@
                    }),
            decreases height - i,
        {
            let iu = i as usize;
            let mut row: Vec<NodeId> = Vec::new();
            std::mem::swap(&mut row, &mut self.map[iu]);
            let ghost before = row@;
            let mut j: u16 = x;
            while j < width
                invariant
                    x <= j <= width || (j == x && x >= width),
                    width as int <= rl,
                    row@.len() == rl,
                    row@ == fill_row(before, x as int, j as int, id),
                decreases width - j,
            {
                row.set(j as usize, id);
                j = j + 1;
                proof {
                    assert(row@ =~= fill_row(before, x as int, j as int, id));
                }
            }
            proof {
                if x >= width {
                    assert(row@ =~= fill_row(before, x as int, width as int, id));
                }
            }
            std::mem::swap(&mut row, &mut self.map[iu]);
            i = i + 1;
        }
        proof {
            assert forall|yy: int, xx: int|
                0 <= yy < old(self).view().len() && 0 <= xx < old(self).width() implies #[trigger] self.view()[yy][xx] == (
                if in_area(xx, yy, viewport, old(self).view().len(), old(self).width()) {
                    id
                } else {
                    old(self).view()[yy][xx]
                }) by {
                old(self).lemma_view_row(yy);
                self.lemma_view_row(yy);
            }
            assert forall|k: int| 0 <= k < self.view().len() implies #[trigger] self.view()[k].len() == old(self).view()[k].len() by {
                old(self).lemma_view_row(k);
                self.lemma_view_row(k);
            }
        }
    }

    /// The last decimal digit of each cell's id, row by row: what a debug view of the map shows.
    pub fn debug_digits(&self) -> (r: Vec<Vec<u8>>)
        ensures
            r@.len() == self.view().len(),
            forall|i: int| 0 <= i < r@.len() ==> (#[trigger] r@[i])@.len() == self.view()[i].len(),
            forall|i: int, j: int|
                0 <= i < r@.len() && 0 <= j < self.view()[i].len() ==> #[trigger] r@[i]@[j] == self.view()[i][j].0 % 10,
    {
        let mut out: Vec<Vec<u8>> = Vec::new();
        let mut i: usize = 0;
        while i < self.map.len()
            invariant
                i <= self.map@.len(),
                out@.len() == i,
                forall|k: int| 0 <= k < i ==> (#[trigger] out@[k])@.len() == self.map@[k]@.len(),
                forall|k: int, j: int|
                    0 <= k < i && 0 <= j < self.map@[k]@.len() ==> #[trigger] out@[k]@[j] == self.map@[k]@[j].0 % 10,
            decreases self.map@.len() - i,
        {
            let mut row: Vec<u8> = Vec::new();
            let mut j: usize = 0;
            while j < self.map[i].len()
                invariant
                    i < self.map@.len(),
                    j <= self.map@[i as int]@.len(),
                    row@.len() == j,
                    forall|t: int| 0 <= t < j ==> #[trigger] row@[t] == self.map@[i as int]@[t].0 % 10,
                decreases self.map@[i as int]@.len() - j,
            {
                let d = (self.map[i][j].0 % 10) as u8;
                row.push(d);
                j = j + 1;
            }
            out.push(row);
            i = i + 1;
        }
        proof {
            assert forall|k: int| 0 <= k < out@.len() implies (#[trigger] out@[k])@.len() == self.view()[k].len() by {
                self.lemma_view_row(k);
            }
            assert forall|k: int, j: int|
                0 <= k < out@.len() && 0 <= j < self.view()[k].len() implies #[trigger] out@[k]@[j] == self.view()[k][j].0 % 10 by {
                self.lemma_view_row(k);
            }
        }
        out
    }

    /// The rows of the map, top to bottom.
    pub fn rows(&self) -> (r: &Vec<Vec<NodeId>>)
        ensures
            r@.map_values(|row: Vec<NodeId>| row@) == self.view(),
    {
        &self.map
    }
}

/// `row` with the cells from `from` up to `to` replaced by `id`.
pub open spec fn fill_row(row: Seq<NodeId>, from: int, to: int, id: NodeId) -> Seq<NodeId> {
    Seq::new(row.len(), |j: int| if from <= j < to { id } else { row[j] })
}
/// The cell `(x, y)` is inside the viewport's area clipped to a map of `rows` rows of `cols`
/// cells, each clip bound taken as `u16`.
pub open spec fn in_area(x: int, y: int, viewport: &Viewport, rows: nat, cols: nat) -> bool {
    let max_x = if viewport.max.0 <= (cols as u16) { viewport.max.0 } else { cols as u16 };
    let max_y = if viewport.max.1 <= (rows as u16) { viewport.max.1 } else { rows as u16 };
    &&& viewport.min.0 <= x < max_x
    &&& viewport.min.1 <= y < max_y
}

/// Truncating a `usize` to `u16` never increases it.
proof fn lemma_truncate_le(v: usize)
    ensures
        (v as u16) as int <= v,
{
    assert((v as u16) as usize <= v) by (bit_vector);
}

/// A row of `width` cells, all `NodeId(0)`.
fn zero_row(width: usize) -> (r: Vec<NodeId>)
    ensures
        r@ == Seq::new(width as nat, |j: int| NodeId(0)),
{
    let mut row: Vec<NodeId> = Vec::new();
    let mut j: usize = 0;
    while j < width
        invariant
            j <= width,
            row@ == Seq::new(j as nat, |k: int| NodeId(0)),
        decreases width - j,
    {
        row.push(NodeId(0));
        j = j + 1;
        proof {
            assert(row@ =~= Seq::new(j as nat, |k: int| NodeId(0)));
        }
    }
    row
}

} // verus!
