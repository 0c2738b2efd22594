use ndarray::Array2;
use vstd::prelude::*;

verus! {

/// A two-dimensional ndarray of tile ids; Verus sees it only through
/// `array_cells` and the wrappers below.
#[verifier::external_body]
pub struct TileArray {
    a: Array2<u8>,
}

/// What a `TileArray` holds, keyed by (row, column).
pub uninterp spec fn array_cells(t: TileArray) -> Map<(usize, usize), u8>;

/// The keys of a grid with `h` rows and `w` columns.
pub open spec fn keys_below(h: usize, w: usize) -> Set<(usize, usize)> {
    Set::new(|k: (usize, usize)| k.0 < h && k.1 < w)
}

/// Relies on ndarray's `Array2::from_elem`: an array of shape
/// `(height, width)` holding a copy of `v` at every index. It panics when the
/// element count overflows `isize`.
#[verifier::external_body]
fn array_filled(height: usize, width: usize, v: u8) -> (t: TileArray)
    requires
        height <= isize::MAX,
        width <= isize::MAX,
        height * width <= isize::MAX,
    ensures
        array_cells(t) == Map::new(
            |k: (usize, usize)| k.0 < height && k.1 < width,
            |k: (usize, usize)| v,
        ),
{
    TileArray { a: Array2::from_elem((height, width), v) }
}

/// Relies on ndarray's `Index<(usize, usize)>` for `Array2`: the element at
/// (row, col). It panics out of bounds.
#[verifier::external_body]
fn array_get(t: &TileArray, row: usize, col: usize) -> (v: u8)
    requires
        array_cells(*t).dom().contains((row, col)),
    ensures
        v == array_cells(*t)[(row, col)],
{
    t.a[(row, col)]
}

/// Relies on ndarray's `IndexMut<(usize, usize)>` for `Array2`: writing
/// through it replaces the element at (row, col) and nothing else. It panics
/// out of bounds.
#[verifier::external_body]
fn array_set(t: &mut TileArray, row: usize, col: usize, v: u8)
    requires
        array_cells(*old(t)).dom().contains((row, col)),
    ensures
        array_cells(*final(t)) == array_cells(*old(t)).insert((row, col), v),
{
    t.a[(row, col)] = v;
}

/// A fixed-size grid of tile ids with `height` rows and `width` columns.
pub struct TileGrid {
    height: usize,
    width: usize,
    tiles: TileArray,
}

impl View for TileGrid {
    type V = Map<(usize, usize), u8>;

    closed spec fn view(&self) -> Map<(usize, usize), u8> {
        array_cells(self.tiles)
    }
}

impl TileGrid {
    /// The number of rows.
    pub closed spec fn rows(&self) -> usize {
        self.height
    }

    /// The number of columns.
    pub closed spec fn cols(&self) -> usize {
        self.width
    }

    /// The grid holds exactly one tile for each (row, column) in bounds.
    pub open spec fn wf(&self) -> bool {
        self@.dom() == keys_below(self.rows(), self.cols())
    }

    /// A grid of `height` rows and `width` columns, every tile `fill`.
    pub fn new(height: usize, width: usize, fill: u8) -> (g: TileGrid)
        requires
            height <= isize::MAX,
            width <= isize::MAX,
            height * width <= isize::MAX,
        ensures
            g.wf(),
            g.rows() == height,
            g.cols() == width,
            forall|k: (usize, usize)| k.0 < height && k.1 < width ==> g@[k] == fill,
    {
        let tiles = array_filled(height, width, fill);
        let g = TileGrid { height, width, tiles };
        assert(g@.dom() =~= keys_below(height, width));
        g
    }

    pub fn height(&self) -> (r: usize)
        ensures
            r == self.rows(),
    {
        self.height
    }

    pub fn width(&self) -> (r: usize)
        ensures
            r == self.cols(),
    {
        self.width
    }

    /// The tile at (row, col), which must lie inside the grid.
    pub fn get(&self, row: usize, col: usize) -> (v: u8)
        requires
            self.wf(),
            row < self.rows(),
            col < self.cols(),
        ensures
            v == self@[(row, col)],
    {
        array_get(&self.tiles, row, col)
    }

    /// Sets the tile at (row, col); a coordinate outside the grid leaves it
    /// unchanged.
    pub fn set(&mut self, row: usize, col: usize, v: u8)
        requires
            old(self).wf(),
        ensures
            final(self).wf(),
            final(self).rows() == old(self).rows(),
            final(self).cols() == old(self).cols(),
            final(self)@ == if row < old(self).rows() && col < old(self).cols() {
                old(self)@.insert((row, col), v)
            } else {
                old(self)@
            },
    {
        if row < self.height && col < self.width {
            array_set(&mut self.tiles, row, col, v);
            assert(self@.dom() =~= keys_below(self.height, self.width));
        }
    }
}

} // verus!
