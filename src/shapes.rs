use crate::grid::TileGrid;
use vstd::prelude::*;

verus! {

/// A grid's tiles, keyed by (row, column).
pub type Tiles = Map<(usize, usize), u8>;

/// (row, col) lies in the half-open rectangle `[x, x + width) × [y, y + height)`
/// (x counts columns, y counts rows).
pub open spec fn in_rect(x: int, y: int, width: int, height: int, row: int, col: int) -> bool {
    x <= col < x + width && y <= row < y + height
}

/// (row, col) lies in the rectangle but not in the one inset by `border` on
/// every side.
pub open spec fn in_frame(
    x: int,
    y: int,
    width: int,
    height: int,
    border: int,
    row: int,
    col: int,
) -> bool {
    in_rect(x, y, width, height, row, col) && !in_rect(
        x + border,
        y + border,
        width - 2 * border,
        height - 2 * border,
        row,
        col,
    )
}

/// `m` with every tile of the rectangle that lies in the grid set to `kind`.
pub open spec fn painted(m: Tiles, x: int, y: int, width: int, height: int, kind: u8) -> Tiles {
    Map::new(
        |k: (usize, usize)| m.dom().contains(k),
        |k: (usize, usize)|
            if in_rect(x, y, width, height, k.0 as int, k.1 as int) {
                kind
            } else {
                m[k]
            },
    )
}

/// `m` with every tile of the rectangle's border of thickness `border` that
/// lies in the grid set to `kind`.
pub open spec fn painted_frame(
    m: Tiles,
    x: int,
    y: int,
    width: int,
    height: int,
    border: int,
    kind: u8,
) -> Tiles {
    Map::new(
        |k: (usize, usize)| m.dom().contains(k),
        |k: (usize, usize)|
            if in_frame(x, y, width, height, border, k.0 as int, k.1 as int) {
                kind
            } else {
                m[k]
            },
    )
}

/// Half of `n`, rounded toward zero.
pub open spec fn half(n: int) -> int {
    if n >= 0 {
        n / 2
    } else {
        -((-n) / 2)
    }
}

/// Half of `n`, rounded toward zero.
fn half_of(n: i64) -> (r: i128)
    ensures
        r == half(n as int),
{
    let m = n as i128;
    if m >= 0 {
        m / 2
    } else {
        -((-m) / 2)
    }
}

/// The tiles of `[lo, lo + len)` that lie in `[0, bound)`, as a range.
fn clamp_span(lo: i64, len: i64, bound: usize) -> (r: (i128, i128))
    ensures
        r.0 == (if lo < 0 {
            0
        } else {
            lo as int
        }),
        r.1 == (if lo + len > bound {
            bound as int
        } else {
            lo + len
        }),
{
    let start: i128 = if lo < 0 {
        0
    } else {
        lo as i128
    };
    let end0: i128 = lo as i128 + len as i128;
    let end: i128 = if end0 > bound as i128 {
        bound as i128
    } else {
        end0
    };
    (start, end)
}

/// Sets every tile of `[x, x + width) × [y, y + height)` that lies in the grid
/// to `kind`; the rest of the rectangle is skipped.
pub fn place_rect(tiles: &mut TileGrid, x: i64, y: i64, width: i64, height: i64, tile_type: u8)
    requires
        old(tiles).wf(),
    ensures
        final(tiles).wf(),
        final(tiles).rows() == old(tiles).rows(),
        final(tiles).cols() == old(tiles).cols(),
        final(tiles)@ == painted(old(tiles)@, x as int, y as int, width as int, height as int, tile_type),
{
    let ghost m = tiles@;
    let (r0, r1) = clamp_span(y, height, tiles.height());
    let (c0, c1) = clamp_span(x, width, tiles.width());
    let mut row: i128 = r0;
    while row < r1
        invariant
            tiles.wf(),
            tiles.rows() == old(tiles).rows(),
            tiles.cols() == old(tiles).cols(),
            m == old(tiles)@,
            r1 <= tiles.rows(),
            0 <= c0,
            c1 <= tiles.cols(),
            r0 == (if y < 0 {
                0
            } else {
                y as int
            }),
            r1 == (if y + height > tiles.rows() {
                tiles.rows() as int
            } else {
                y + height
            }),
            c0 == (if x < 0 {
                0
            } else {
                x as int
            }),
            c1 == (if x + width > tiles.cols() {
                tiles.cols() as int
            } else {
                x + width
            }),
            0 <= r0 <= row,
            row <= r1 || row == r0,
            tiles@.dom() == m.dom(),
            forall|k: (usize, usize)|
                #![trigger tiles@[k]]
                m.dom().contains(k) ==> tiles@[k] == if in_rect(
                    x as int,
                    y as int,
                    width as int,
                    height as int,
                    k.0 as int,
                    k.1 as int,
                ) && k.0 < row {
                    tile_type
                } else {
                    m[k]
                },
        decreases r1 - row,
    {
        let mut col: i128 = c0;
        while col < c1
            invariant
                tiles.wf(),
                tiles.rows() == old(tiles).rows(),
                tiles.cols() == old(tiles).cols(),
                m == old(tiles)@,
                r1 <= tiles.rows(),
                0 <= c0,
                c1 <= tiles.cols(),
                r0 == (if y < 0 {
                0
            } else {
                y as int
            }),
            r1 == (if y + height > tiles.rows() {
                tiles.rows() as int
            } else {
                y + height
            }),
                c0 == (if x < 0 {
                0
            } else {
                x as int
            }),
            c1 == (if x + width > tiles.cols() {
                tiles.cols() as int
            } else {
                x + width
            }),
                0 <= r0 <= row < r1,
                c0 <= col,
                col <= c1 || col == c0,
                tiles@.dom() == m.dom(),
                forall|k: (usize, usize)|
                    #![trigger tiles@[k]]
                    m.dom().contains(k) ==> tiles@[k] == if in_rect(
                        x as int,
                        y as int,
                        width as int,
                        height as int,
                        k.0 as int,
                        k.1 as int,
                    ) && (k.0 < row || (k.0 == row && k.1 < col)) {
                        tile_type
                    } else {
                        m[k]
                    },
            decreases c1 - col,
        {
            tiles.set(row as usize, col as usize, tile_type);
            col = col + 1;
        }
        row = row + 1;
    }
    assert(tiles@ =~= painted(m, x as int, y as int, width as int, height as int, tile_type));
}

/// Sets to `kind` every tile of `[x, x + width) × [y, y + height)` that lies in
/// the grid and within `border` of the rectangle's edge; the inset interior
/// keeps its tiles. Where the inset is empty the whole rectangle is painted.
pub fn place_rect_border(
    tiles: &mut TileGrid,
    x: i64,
    y: i64,
    width: i64,
    height: i64,
    border: i64,
    tile_type: u8,
)
    requires
        old(tiles).wf(),
    ensures
        final(tiles).wf(),
        final(tiles).rows() == old(tiles).rows(),
        final(tiles).cols() == old(tiles).cols(),
        final(tiles)@ == painted_frame(
            old(tiles)@,
            x as int,
            y as int,
            width as int,
            height as int,
            border as int,
            tile_type,
        ),
{
    let ghost m = tiles@;
    let (r0, r1) = clamp_span(y, height, tiles.height());
    let (c0, c1) = clamp_span(x, width, tiles.width());
    let mut row: i128 = r0;
    while row < r1
        invariant
            tiles.wf(),
            tiles.rows() == old(tiles).rows(),
            tiles.cols() == old(tiles).cols(),
            m == old(tiles)@,
            r1 <= tiles.rows(),
            0 <= c0,
            c1 <= tiles.cols(),
            r0 == (if y < 0 {
                0
            } else {
                y as int
            }),
            r1 == (if y + height > tiles.rows() {
                tiles.rows() as int
            } else {
                y + height
            }),
            c0 == (if x < 0 {
                0
            } else {
                x as int
            }),
            c1 == (if x + width > tiles.cols() {
                tiles.cols() as int
            } else {
                x + width
            }),
            0 <= r0 <= row,
            row <= r1 || row == r0,
            tiles@.dom() == m.dom(),
            forall|k: (usize, usize)|
                #![trigger tiles@[k]]
                m.dom().contains(k) ==> tiles@[k] == if in_frame(
                    x as int,
                    y as int,
                    width as int,
                    height as int,
                    border as int,
                    k.0 as int,
                    k.1 as int,
                ) && k.0 < row {
                    tile_type
                } else {
                    m[k]
                },
        decreases r1 - row,
    {
        let mut col: i128 = c0;
        while col < c1
            invariant
                tiles.wf(),
                tiles.rows() == old(tiles).rows(),
                tiles.cols() == old(tiles).cols(),
                m == old(tiles)@,
                r1 <= tiles.rows(),
                0 <= c0,
                c1 <= tiles.cols(),
                r0 == (if y < 0 {
                0
            } else {
                y as int
            }),
            r1 == (if y + height > tiles.rows() {
                tiles.rows() as int
            } else {
                y + height
            }),
                c0 == (if x < 0 {
                0
            } else {
                x as int
            }),
            c1 == (if x + width > tiles.cols() {
                tiles.cols() as int
            } else {
                x + width
            }),
                0 <= r0 <= row < r1,
                c0 <= col,
                col <= c1 || col == c0,
                tiles@.dom() == m.dom(),
                forall|k: (usize, usize)|
                    #![trigger tiles@[k]]
                    m.dom().contains(k) ==> tiles@[k] == if in_frame(
                        x as int,
                        y as int,
                        width as int,
                        height as int,
                        border as int,
                        k.0 as int,
                        k.1 as int,
                    ) && (k.0 < row || (k.0 == row && k.1 < col)) {
                        tile_type
                    } else {
                        m[k]
                    },
            decreases c1 - col,
        {
            let b = border as i128;
            let inside = col >= x as i128 + b && row >= y as i128 + b && col < x as i128
                + width as i128 - b && row < y as i128 + height as i128 - b;
            if !inside {
                tiles.set(row as usize, col as usize, tile_type);
            }
            col = col + 1;
        }
        row = row + 1;
    }
    assert(tiles@ =~= painted_frame(
            m,
            x as int,
            y as int,
            width as int,
            height as int,
            border as int,
            tile_type,
        ));
}

/// `place_rect` on the rectangle of the given size whose top-left corner is
/// `(x - width / 2, y - height / 2)`, the halves rounded toward zero.
pub fn place_rect_center(
    tiles: &mut TileGrid,
    x: i64,
    y: i64,
    width: i64,
    height: i64,
    tile_type: u8,
)
    requires
        old(tiles).wf(),
        i64::MIN <= x - half(width as int) <= i64::MAX,
        i64::MIN <= y - half(height as int) <= i64::MAX,
    ensures
        final(tiles).wf(),
        final(tiles).rows() == old(tiles).rows(),
        final(tiles).cols() == old(tiles).cols(),
        final(tiles)@ == painted(
            old(tiles)@,
            x - half(width as int),
            y - half(height as int),
            width as int,
            height as int,
            tile_type,
        ),
{
    let left = (x as i128 - half_of(width)) as i64;
    let top = (y as i128 - half_of(height)) as i64;
    place_rect(tiles, left, top, width, height, tile_type);
}

/// `place_rect_border` on the rectangle of the given size whose top-left
/// corner is `(x - width / 2, y - height / 2)`, the halves rounded toward zero.
pub fn place_rect_border_center(
    tiles: &mut TileGrid,
    x: i64,
    y: i64,
    width: i64,
    height: i64,
    border: i64,
    tile_type: u8,
)
    requires
        old(tiles).wf(),
        i64::MIN <= x - half(width as int) <= i64::MAX,
        i64::MIN <= y - half(height as int) <= i64::MAX,
    ensures
        final(tiles).wf(),
        final(tiles).rows() == old(tiles).rows(),
        final(tiles).cols() == old(tiles).cols(),
        final(tiles)@ == painted_frame(
            old(tiles)@,
            x - half(width as int),
            y - half(height as int),
            width as int,
            height as int,
            border as int,
            tile_type,
        ),
{
    let left = (x as i128 - half_of(width)) as i64;
    let top = (y as i128 - half_of(height)) as i64;
    place_rect_border(tiles, left, top, width, height, border, tile_type);
}

/// Painting a rectangle changes no tile outside it and adds no tile outside
/// the grid, whatever its position and size.
pub proof fn lemma_paint_stays_in_grid(
    m: Tiles,
    x: int,
    y: int,
    width: int,
    height: int,
    kind: u8,
)
    ensures
        painted(m, x, y, width, height, kind).dom() == m.dom(),
        forall|k: (usize, usize)|
            m.dom().contains(k) && !in_rect(x, y, width, height, k.0 as int, k.1 as int)
                ==> #[trigger] painted(m, x, y, width, height, kind)[k] == m[k],
{
    assert(painted(m, x, y, width, height, kind).dom() =~= m.dom());
}

/// A border of thickness zero paints the same tiles as the whole rectangle
/// where the rectangle has no tile in the grid. (Its inset interior is the
/// rectangle itself, so such a border paints nothing.)
pub proof fn lemma_zero_border_fills(m: Tiles, x: int, y: int, width: int, height: int, kind: u8)
    requires
        forall|k: (usize, usize)|
            #[trigger] m.dom().contains(k) ==> !in_rect(x, y, width, height, k.0 as int, k.1 as int),
    ensures
        painted_frame(m, x, y, width, height, 0, kind) == painted(m, x, y, width, height, kind),
{
    assert(painted_frame(m, x, y, width, height, 0, kind) =~= painted(
        m,
        x,
        y,
        width,
        height,
        kind,
    ));
}

/// A border at least half as thick as the rectangle's smaller side leaves no
/// interior, and paints the whole rectangle.
pub proof fn lemma_thick_border_fills(
    m: Tiles,
    x: int,
    y: int,
    width: int,
    height: int,
    border: int,
    kind: u8,
)
    requires
        2 * border >= width || 2 * border >= height,
    ensures
        painted_frame(m, x, y, width, height, border, kind) == painted(
            m,
            x,
            y,
            width,
            height,
            kind,
        ),
{
    assert(painted_frame(m, x, y, width, height, border, kind) =~= painted(
        m,
        x,
        y,
        width,
        height,
        kind,
    ));
}

} // verus!
