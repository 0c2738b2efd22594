use crate::grid::{keys_below, TileGrid};
use crate::shapes::{
    half, painted, painted_frame, place_rect, place_rect_border_center, place_rect_center, Tiles,
};
use rand::rngs::StdRng;
use rand::Rng;
use vstd::prelude::*;

verus! {

/// Open space.
pub const TILE_EMPTY: u8 = 0;

/// Solid terrain that can be hooked and stood on.
pub const TILE_HOOKABLE: u8 = 1;

/// A hazard that freezes the player on contact.
pub const TILE_FREEZE: u8 = 9;

/// The start line.
pub const TILE_START: u8 = 33;

/// The finish line.
pub const TILE_FINISH: u8 = 34;

/// The player's spawn point.
pub const TILE_SPAWN: u8 = 192;

/// Rows of a generated level.
pub const HEIGHT: usize = 60;

/// Columns of a generated level.
pub const WIDTH: usize = 350;

/// Columns left of the start line.
pub const START_BUFFER: usize = 10;

/// Columns from the finish line to the right edge.
pub const FINISH_BUFFER: usize = 10;

/// Thickness of the shell that each void carves.
pub const VOID_SHELL: i64 = 3;

/// How much a solid block is smaller than the clearing around it, per side
/// pair.
pub const BLOCK_MARGIN: i64 = 7;

/// The generator of "gore" levels: chunky floating obstacles carved out of
/// solid terrain, skinned with freeze.
pub struct GoreGenerator;

/// One randomly drawn rectangle, by its center and size.
#[derive(Clone, Copy, Debug, PartialEq, Eq)]
pub struct Placement {
    pub x: i64,
    pub y: i64,
    pub width: i64,
    pub height: i64,
}

/// The corner `(x - width / 2, y - height / 2)` of the placement fits an `i64`.
pub open spec fn corner_fits(p: Placement) -> bool {
    i64::MIN <= p.x - half(p.width as int) <= i64::MAX && i64::MIN <= p.y - half(p.height as int)
        <= i64::MAX
}

/// Every placement's corner fits an `i64`.
pub open spec fn all_fit(ps: Seq<Placement>) -> bool {
    forall|i: int| 0 <= i < ps.len() ==> corner_fits(#[trigger] ps[i])
}

/// The terrain before any carving: solid between the start and finish
/// buffers, the spawn point near the bottom left, open space elsewhere.
pub open spec fn base_terrain() -> Tiles {
    Map::new(
        |k: (usize, usize)| keys_below(HEIGHT, WIDTH).contains(k),
        |k: (usize, usize)|
            if START_BUFFER < k.1 < WIDTH - FINISH_BUFFER {
                TILE_HOOKABLE
            } else if k.0 == HEIGHT - 3 && k.1 == 5 {
                TILE_SPAWN
            } else {
                TILE_EMPTY
            },
    )
}

/// The decoration grid: a full-height start line and finish line.
pub open spec fn front_lines() -> Tiles {
    Map::new(
        |k: (usize, usize)| keys_below(HEIGHT, WIDTH).contains(k),
        |k: (usize, usize)|
            if k.1 == START_BUFFER {
                TILE_START
            } else if k.1 == WIDTH - FINISH_BUFFER {
                TILE_FINISH
            } else {
                TILE_EMPTY
            },
    )
}

/// An overlay grid with no tile set.
pub open spec fn blank_overlay() -> Tiles {
    Map::new(|k: (usize, usize)| keys_below(HEIGHT, WIDTH).contains(k), |k: (usize, usize)| 0u8)
}

/// `m` with the shell of one void carved out.
pub open spec fn with_void(m: Tiles, p: Placement) -> Tiles {
    painted_frame(
        m,
        p.x - half(p.width as int),
        p.y - half(p.height as int),
        p.width as int,
        p.height as int,
        VOID_SHELL as int,
        TILE_EMPTY,
    )
}

/// `m` with the voids carved in order.
pub open spec fn carved(m: Tiles, voids: Seq<Placement>) -> Tiles
    decreases voids.len(),
{
    if voids.len() == 0 {
        m
    } else {
        with_void(carved(m, voids.drop_last()), voids.last())
    }
}

/// A side of a clearing, less the margin, and never below zero.
pub open spec fn shrunk(n: int) -> int {
    if n - BLOCK_MARGIN > 0 {
        n - BLOCK_MARGIN
    } else {
        0
    }
}

/// `m` with one clearing emptied and a smaller solid block set in its middle.
pub open spec fn with_block(m: Tiles, p: Placement) -> Tiles {
    painted(
        painted(
            m,
            p.x - half(p.width as int),
            p.y - half(p.height as int),
            p.width as int,
            p.height as int,
            TILE_EMPTY,
        ),
        p.x - half(shrunk(p.width as int)),
        p.y - half(shrunk(p.height as int)),
        shrunk(p.width as int),
        shrunk(p.height as int),
        TILE_HOOKABLE,
    )
}

/// `m` with the blocks placed in order.
pub open spec fn blocked(m: Tiles, blocks: Seq<Placement>) -> Tiles
    decreases blocks.len(),
{
    if blocks.len() == 0 {
        m
    } else {
        with_block(blocked(m, blocks.drop_last()), blocks.last())
    }
}

/// The key lies on the outermost ring of the level.
pub open spec fn on_ring(k: (usize, usize)) -> bool {
    k.0 == 0 || k.0 == HEIGHT - 1 || k.1 == 0 || k.1 == WIDTH - 1
}

/// `m` with its outermost ring made solid.
pub open spec fn framed(m: Tiles) -> Tiles {
    Map::new(
        |k: (usize, usize)| m.dom().contains(k),
        |k: (usize, usize)|
            if on_ring(k) {
                TILE_HOOKABLE
            } else {
                m[k]
            },
    )
}

/// The key lies where freeze may form: off the outer rows, from the start
/// line up to the finish line.
pub open spec fn in_freeze_zone(k: (usize, usize)) -> bool {
    1 <= k.0 < HEIGHT - 1 && START_BUFFER <= k.1 < WIDTH - FINISH_BUFFER
}

/// `m` holds a hookable tile at the key.
pub open spec fn hookable_at(m: Tiles, row: int, col: int) -> bool {
    m[(row as usize, col as usize)] == TILE_HOOKABLE
}

/// One of the eight tiles around the key is hookable.
pub open spec fn touches_hookable(m: Tiles, k: (usize, usize)) -> bool {
    let (r, c) = (k.0 as int, k.1 as int);
    hookable_at(m, r - 1, c + 1) || hookable_at(m, r - 1, c) || hookable_at(m, r - 1, c - 1)
        || hookable_at(m, r, c - 1) || hookable_at(m, r, c + 1) || hookable_at(m, r + 1, c + 1)
        || hookable_at(m, r + 1, c) || hookable_at(m, r + 1, c - 1)
}

/// `m` with every open tile of the freeze zone that touches hookable terrain
/// turned to freeze, all judged on `m` itself.
pub open spec fn frozen(m: Tiles) -> Tiles {
    Map::new(
        |k: (usize, usize)| m.dom().contains(k),
        |k: (usize, usize)|
            if in_freeze_zone(k) && m[k] == TILE_EMPTY && touches_hookable(m, k) {
                TILE_FREEZE
            } else {
                m[k]
            },
    )
}

/// The finished terrain for the given voids, upright blocks and flat blocks.
pub open spec fn gore_terrain(
    voids: Seq<Placement>,
    pillars: Seq<Placement>,
    beams: Seq<Placement>,
) -> Tiles {
    frozen(framed(blocked(blocked(carved(base_terrain(), voids), pillars), beams)))
}

/// A grid of the level's size.
pub open spec fn level_sized(g: TileGrid) -> bool {
    g.wf() && g.rows() == HEIGHT && g.cols() == WIDTH
}

/// The terrain grid before carving.
pub fn base_terrain_grid() -> (g: TileGrid)
    ensures
        level_sized(g),
        g@ == base_terrain(),
{
    let mut g = TileGrid::new(HEIGHT, WIDTH, TILE_EMPTY);
    g.set(HEIGHT - 3, 5, TILE_SPAWN);
    place_rect(
        &mut g,
        (START_BUFFER + 1) as i64,
        0,
        (WIDTH - FINISH_BUFFER - (START_BUFFER + 1)) as i64,
        HEIGHT as i64,
        TILE_HOOKABLE,
    );
    assert(g@ =~= base_terrain());
    g
}

/// The decoration grid with its start and finish lines.
pub fn front_grid() -> (g: TileGrid)
    ensures
        level_sized(g),
        g@ == front_lines(),
{
    let mut g = TileGrid::new(HEIGHT, WIDTH, TILE_EMPTY);
    place_rect(&mut g, START_BUFFER as i64, 0, 1, HEIGHT as i64, TILE_START);
    place_rect(&mut g, (WIDTH - FINISH_BUFFER) as i64, 0, 1, HEIGHT as i64, TILE_FINISH);
    assert(g@ =~= front_lines());
    g
}

/// Carves the shell of each void, in order.
pub fn carve_voids(tiles: &mut TileGrid, voids: &Vec<Placement>)
    requires
        level_sized(*old(tiles)),
        all_fit(voids@),
    ensures
        level_sized(*final(tiles)),
        final(tiles)@ == carved(old(tiles)@, voids@),
{
    let ghost m = tiles@;
    let mut i: usize = 0;
    while i < voids.len()
        invariant
            level_sized(*tiles),
            all_fit(voids@),
            i <= voids@.len(),
            tiles@ == carved(m, voids@.take(i as int)),
        decreases voids@.len() - i,
    {
        let p = voids[i];
        assert(corner_fits(voids@[i as int]));
        place_rect_border_center(tiles, p.x, p.y, p.width, p.height, VOID_SHELL, TILE_EMPTY);
        assert(voids@.take(i + 1).drop_last() =~= voids@.take(i as int));
        i = i + 1;
    }
    assert(voids@.take(voids@.len() as int) =~= voids@);
}

/// A side less the margin, never below zero.
fn shrink(n: i64) -> (r: i64)
    ensures
        r == shrunk(n as int),
{
    if n > BLOCK_MARGIN {
        n - BLOCK_MARGIN
    } else {
        0
    }
}

/// Clears each block's rectangle, then fills a smaller rectangle with the
/// same center with solid terrain, in order.
pub fn place_blocks(tiles: &mut TileGrid, blocks: &Vec<Placement>)
    requires
        level_sized(*old(tiles)),
        all_fit(blocks@),
    ensures
        level_sized(*final(tiles)),
        final(tiles)@ == blocked(old(tiles)@, blocks@),
{
    let ghost m = tiles@;
    let mut i: usize = 0;
    while i < blocks.len()
        invariant
            level_sized(*tiles),
            all_fit(blocks@),
            i <= blocks@.len(),
            tiles@ == blocked(m, blocks@.take(i as int)),
        decreases blocks@.len() - i,
    {
        let p = blocks[i];
        assert(corner_fits(blocks@[i as int]));
        place_rect_center(tiles, p.x, p.y, p.width, p.height, TILE_EMPTY);
        let width = shrink(p.width);
        let height = shrink(p.height);
        place_rect_center(tiles, p.x, p.y, width, height, TILE_HOOKABLE);
        assert(blocks@.take(i + 1).drop_last() =~= blocks@.take(i as int));
        i = i + 1;
    }
    assert(blocks@.take(blocks@.len() as int) =~= blocks@);
}

/// Makes the outermost ring of the level solid.
pub fn frame_border(tiles: &mut TileGrid)
    requires
        level_sized(*old(tiles)),
    ensures
        level_sized(*final(tiles)),
        final(tiles)@ == framed(old(tiles)@),
{
    let ghost m = tiles@;
    let h = HEIGHT as i64;
    let w = WIDTH as i64;
    place_rect(tiles, 0, 0, w, 1, TILE_HOOKABLE);
    place_rect(tiles, 0, h - 1, w, 1, TILE_HOOKABLE);
    place_rect(tiles, 0, 0, 1, h, TILE_HOOKABLE);
    place_rect(tiles, w - 1, 0, 1, h, TILE_HOOKABLE);
    assert(tiles@ =~= framed(m));
}

/// Turns to freeze every open tile of the freeze zone that has a hookable
/// tile among its eight neighbours. Freeze placed here does not spread
/// further: a neighbour is judged only on whether it is hookable.
pub fn spread_freeze(tiles: &mut TileGrid)
    requires
        level_sized(*old(tiles)),
    ensures
        level_sized(*final(tiles)),
        final(tiles)@ == frozen(old(tiles)@),
{
    let ghost m = tiles@;
    let mut y: usize = 1;
    while y < HEIGHT - 1
        invariant
            level_sized(*tiles),
            m == old(tiles)@,
            1 <= y <= HEIGHT - 1,
            tiles@.dom() == m.dom(),
            forall|k: (usize, usize)|
                #![trigger tiles@[k]]
                m.dom().contains(k) ==> tiles@[k] == if in_freeze_zone(k) && k.0 < y && m[k]
                    == TILE_EMPTY && touches_hookable(m, k) {
                    TILE_FREEZE
                } else {
                    m[k]
                },
        decreases HEIGHT - y,
    {
        let mut x: usize = START_BUFFER;
        while x < WIDTH - FINISH_BUFFER
            invariant
                level_sized(*tiles),
                m == old(tiles)@,
                1 <= y < HEIGHT - 1,
                START_BUFFER <= x <= WIDTH - FINISH_BUFFER,
                tiles@.dom() == m.dom(),
                forall|k: (usize, usize)|
                    #![trigger tiles@[k]]
                    m.dom().contains(k) ==> tiles@[k] == if in_freeze_zone(k) && (k.0 < y || (
                    k.0 == y && k.1 < x)) && m[k] == TILE_EMPTY && touches_hookable(m, k) {
                        TILE_FREEZE
                    } else {
                        m[k]
                    },
            decreases WIDTH - x,
        {
            if tiles.get(y, x) == TILE_EMPTY {
                let touches = tiles.get(y - 1, x + 1) == TILE_HOOKABLE || tiles.get(y - 1, x)
                    == TILE_HOOKABLE || tiles.get(y - 1, x - 1) == TILE_HOOKABLE || tiles.get(
                    y,
                    x - 1,
                ) == TILE_HOOKABLE || tiles.get(y, x + 1) == TILE_HOOKABLE || tiles.get(
                    y + 1,
                    x + 1,
                ) == TILE_HOOKABLE || tiles.get(y + 1, x) == TILE_HOOKABLE || tiles.get(
                    y + 1,
                    x - 1,
                ) == TILE_HOOKABLE;
                assert(touches == touches_hookable(m, (y, x)));
                if touches {
                    tiles.set(y, x, TILE_FREEZE);
                }
            }
            x = x + 1;
        }
        y = y + 1;
    }
    assert(tiles@ =~= frozen(m));
}

/// A colour with opacity.
#[derive(Clone, Copy, Debug, PartialEq, Eq)]
pub struct Rgba {
    pub r: u8,
    pub g: u8,
    pub b: u8,
    pub a: u8,
}

/// What a physics layer is to the map that holds it.
#[derive(Clone, Copy, Debug, PartialEq, Eq)]
pub enum LayerKind {
    /// The gameplay terrain.
    Game,
    /// Decoration drawn in front: start and finish lines.
    Front,
    /// A plain tile layer drawn with an image and a tint.
    Tiles,
}

/// One layer of the physics group: its kind, its tiles and how it is drawn.
pub struct PhysicsLayer {
    pub kind: LayerKind,
    pub tiles: TileGrid,
    pub image: Option<u16>,
    pub color: Rgba,
}

/// Opaque white: an untinted layer.
pub open spec fn white() -> Rgba {
    Rgba { r: 255, g: 255, b: 255, a: 255 }
}

/// The layer has the given kind, tiles, image and tint.
pub open spec fn layer_is(
    l: PhysicsLayer,
    kind: LayerKind,
    tiles: Tiles,
    image: Option<u16>,
    color: Rgba,
) -> bool {
    l.kind == kind && level_sized(l.tiles) && l.tiles@ == tiles && l.image == image && l.color
        == color
}

/// The physics group of a level whose terrain is `terrain`, in order: the
/// terrain, the start and finish lines, the hookable overlay (image 0) and
/// the freeze overlay (image 1, tinted black at opacity 200).
pub open spec fn is_gore_level(layers: Seq<PhysicsLayer>, terrain: Tiles) -> bool {
    &&& layers.len() == 4
    &&& layer_is(layers[0], LayerKind::Game, terrain, None, white())
    &&& layer_is(layers[1], LayerKind::Front, front_lines(), None, white())
    &&& layer_is(layers[2], LayerKind::Tiles, blank_overlay(), Some(0u16), white())
    &&& layer_is(
        layers[3],
        LayerKind::Tiles,
        blank_overlay(),
        Some(1u16),
        Rgba { r: 0, g: 0, b: 0, a: 200 },
    )
}

/// Wraps the finished grids as the physics group's layers, in order.
pub fn assemble(game: TileGrid, front: TileGrid, hookable: TileGrid, freeze: TileGrid) -> (layers:
    Vec<PhysicsLayer>)
    requires
        level_sized(game),
        level_sized(front),
        level_sized(hookable),
        level_sized(freeze),
        front@ == front_lines(),
        hookable@ == blank_overlay(),
        freeze@ == blank_overlay(),
    ensures
        is_gore_level(layers@, game@),
{
    let white = Rgba { r: 255, g: 255, b: 255, a: 255 };
    let mut layers: Vec<PhysicsLayer> = Vec::new();
    layers.push(PhysicsLayer { kind: LayerKind::Game, tiles: game, image: None, color: white });
    layers.push(PhysicsLayer { kind: LayerKind::Front, tiles: front, image: None, color: white });
    layers.push(
        PhysicsLayer { kind: LayerKind::Tiles, tiles: hookable, image: Some(0), color: white },
    );
    layers.push(
        PhysicsLayer {
            kind: LayerKind::Tiles,
            tiles: freeze,
            image: Some(1),
            color: Rgba { r: 0, g: 0, b: 0, a: 200 },
        },
    );
    layers
}

/// An overlay grid of the level's size with no tile set.
pub fn blank_overlay_grid() -> (g: TileGrid)
    ensures
        level_sized(g),
        g@ == blank_overlay(),
{
    let g = TileGrid::new(HEIGHT, WIDTH, 0);
    assert(g@ =~= blank_overlay());
    g
}

/// Builds a level from its drawn voids, upright blocks and flat blocks: the
/// base terrain, the voids carved in order, the upright and then the flat
/// blocks placed in order, the border framed and freeze spread.
pub fn build_level(voids: &Vec<Placement>, pillars: &Vec<Placement>, beams: &Vec<Placement>) -> (layers:
    Vec<PhysicsLayer>)
    requires
        all_fit(voids@),
        all_fit(pillars@),
        all_fit(beams@),
    ensures
        is_gore_level(layers@, gore_terrain(voids@, pillars@, beams@)),
{
    let mut tiles = base_terrain_grid();
    let front = front_grid();
    let hookable = blank_overlay_grid();
    let freeze = blank_overlay_grid();
    carve_voids(&mut tiles, voids);
    place_blocks(&mut tiles, pillars);
    place_blocks(&mut tiles, beams);
    frame_border(&mut tiles);
    spread_freeze(&mut tiles);
    assemble(tiles, front, hookable, freeze)
}

/// Voids carved per level.
pub const VOID_COUNT: usize = 100;

/// Upright blocks per level.
pub const PILLAR_COUNT: usize = 30;

/// Flat blocks per level.
pub const BEAM_COUNT: usize = 45;

/// The placement's center lies in the playable columns and the level's rows,
/// and its size in `[width_lo, width_hi) × [height_lo, height_hi)`.
pub open spec fn drawn_in(
    p: Placement,
    width_lo: int,
    width_hi: int,
    height_lo: int,
    height_hi: int,
) -> bool {
    &&& START_BUFFER <= p.x < WIDTH - FINISH_BUFFER
    &&& 0 <= p.y < HEIGHT
    &&& width_lo <= p.width < width_hi
    &&& height_lo <= p.height < height_hi
}

/// `count` placements, each drawn within the given bounds.
pub open spec fn all_drawn_in(
    ps: Seq<Placement>,
    count: int,
    width_lo: int,
    width_hi: int,
    height_lo: int,
    height_hi: int,
) -> bool {
    ps.len() == count && forall|i: int|
        0 <= i < ps.len() ==> drawn_in(#[trigger] ps[i], width_lo, width_hi, height_lo, height_hi)
}

/// Draws within bounds fit the corner arithmetic.
proof fn lemma_drawn_fit(
    ps: Seq<Placement>,
    count: int,
    width_lo: int,
    width_hi: int,
    height_lo: int,
    height_hi: int,
)
    requires
        all_drawn_in(ps, count, width_lo, width_hi, height_lo, height_hi),
        0 <= width_lo,
        width_hi <= i64::MAX,
        0 <= height_lo,
        height_hi <= i64::MAX,
    ensures
        all_fit(ps),
{
    assert forall|i: int| 0 <= i < ps.len() implies corner_fits(#[trigger] ps[i]) by {
        assert(drawn_in(ps[i], width_lo, width_hi, height_lo, height_hi));
    }
}

/// rand's standard generator, carried through opaquely.
#[verifier::external_type_specification]
#[verifier::external_body]
pub struct ExStdRng(StdRng);

/// Relies on rand's `Rng::gen_range` on a `StdRng`: a value drawn from
/// `lo..hi`. It panics on an empty range.
#[verifier::external_body]
fn draw_below(rng: &mut StdRng, lo: usize, hi: usize) -> (r: usize)
    requires
        lo < hi,
    ensures
        lo <= r < hi,
{
    rng.gen_range(lo..hi)
}

/// Draws `count` placements, each as its center column, center row, width
/// and height, in that order.
pub fn draw_placements(
    rng: &mut StdRng,
    count: usize,
    width_lo: usize,
    width_hi: usize,
    height_lo: usize,
    height_hi: usize,
) -> (ps: Vec<Placement>)
    requires
        width_lo < width_hi <= i64::MAX,
        height_lo < height_hi <= i64::MAX,
    ensures
        all_drawn_in(
            ps@,
            count as int,
            width_lo as int,
            width_hi as int,
            height_lo as int,
            height_hi as int,
        ),
{
    let mut ps: Vec<Placement> = Vec::new();
    let mut i: usize = 0;
    while i < count
        invariant
            width_lo < width_hi <= i64::MAX,
            height_lo < height_hi <= i64::MAX,
            i <= count,
            all_drawn_in(
                ps@,
                i as int,
                width_lo as int,
                width_hi as int,
                height_lo as int,
                height_hi as int,
            ),
        decreases count - i,
    {
        let x = draw_below(rng, START_BUFFER, WIDTH - FINISH_BUFFER);
        let y = draw_below(rng, 0, HEIGHT);
        let width = draw_below(rng, width_lo, width_hi);
        let height = draw_below(rng, height_lo, height_hi);
        let p = Placement { x: x as i64, y: y as i64, width: width as i64, height: height as i64 };
        ps.push(p);
        i = i + 1;
        assert(drawn_in(ps@[i - 1], width_lo as int, width_hi as int, height_lo as int, height_hi as int));
    }
    ps
}

/// The layers are those of the level built from some voids, upright blocks
/// and flat blocks drawn in their bounds and numbers.
pub open spec fn drawn_level(
    layers: Seq<PhysicsLayer>,
    voids: Seq<Placement>,
    pillars: Seq<Placement>,
    beams: Seq<Placement>,
) -> bool {
    &&& all_drawn_in(voids, VOID_COUNT as int, 6, 30, 3, 15)
    &&& all_drawn_in(pillars, PILLAR_COUNT as int, 11, 14, 17, 28)
    &&& all_drawn_in(beams, BEAM_COUNT as int, 17, 28, 11, 14)
    &&& is_gore_level(layers, gore_terrain(voids, pillars, beams))
}

impl GoreGenerator {
    /// Generates a level: draws every void, then every upright block, then
    /// every flat block from `rng`, and builds the level from them.
    pub fn generate(rng: &mut StdRng) -> (layers: Vec<PhysicsLayer>)
        ensures
            exists|v: Seq<Placement>, p: Seq<Placement>, b: Seq<Placement>|
                #[trigger] drawn_level(layers@, v, p, b),
    {
        let voids = draw_placements(rng, VOID_COUNT, 6, 30, 3, 15);
        let pillars = draw_placements(rng, PILLAR_COUNT, 11, 14, 17, 28);
        let beams = draw_placements(rng, BEAM_COUNT, 17, 28, 11, 14);
        proof {
            lemma_drawn_fit(voids@, VOID_COUNT as int, 6, 30, 3, 15);
            lemma_drawn_fit(pillars@, PILLAR_COUNT as int, 11, 14, 17, 28);
            lemma_drawn_fit(beams@, BEAM_COUNT as int, 17, 28, 11, 14);
        }
        let layers = build_level(&voids, &pillars, &beams);
        assert(drawn_level(layers@, voids@, pillars@, beams@));
        layers
    }
}

/// No tile of `m` is freeze.
pub open spec fn freeze_free(m: Tiles) -> bool {
    forall|k: (usize, usize)| #[trigger] m.dom().contains(k) ==> m[k] != TILE_FREEZE
}

/// Carving keeps the level's keys and adds no freeze.
proof fn lemma_carved_keeps(m: Tiles, voids: Seq<Placement>)
    requires
        m.dom() == keys_below(HEIGHT, WIDTH),
        freeze_free(m),
    ensures
        carved(m, voids).dom() == keys_below(HEIGHT, WIDTH),
        freeze_free(carved(m, voids)),
    decreases voids.len(),
{
    if voids.len() > 0 {
        lemma_carved_keeps(m, voids.drop_last());
        let prev = carved(m, voids.drop_last());
        assert(carved(m, voids) == with_void(prev, voids.last()));
        assert(with_void(prev, voids.last()).dom() =~= prev.dom());
    }
}

/// Placing blocks keeps the level's keys and adds no freeze.
proof fn lemma_blocked_keeps(m: Tiles, blocks: Seq<Placement>)
    requires
        m.dom() == keys_below(HEIGHT, WIDTH),
        freeze_free(m),
    ensures
        blocked(m, blocks).dom() == keys_below(HEIGHT, WIDTH),
        freeze_free(blocked(m, blocks)),
    decreases blocks.len(),
{
    if blocks.len() > 0 {
        lemma_blocked_keeps(m, blocks.drop_last());
        let prev = blocked(m, blocks.drop_last());
        let p = blocks.last();
        let cleared = painted(
            prev,
            p.x - half(p.width as int),
            p.y - half(p.height as int),
            p.width as int,
            p.height as int,
            TILE_EMPTY,
        );
        assert(cleared.dom() =~= prev.dom());
        assert(with_block(prev, p).dom() =~= prev.dom());
    }
}

/// The terrain as it stands before freeze spreads: the level's keys, and no
/// freeze.
proof fn lemma_framed_terrain(voids: Seq<Placement>, pillars: Seq<Placement>, beams: Seq<Placement>)
    ensures
        framed(blocked(blocked(carved(base_terrain(), voids), pillars), beams)).dom() == keys_below(
            HEIGHT,
            WIDTH,
        ),
        freeze_free(framed(blocked(blocked(carved(base_terrain(), voids), pillars), beams))),
{
    assert(base_terrain().dom() =~= keys_below(HEIGHT, WIDTH));
    lemma_carved_keeps(base_terrain(), voids);
    let c = carved(base_terrain(), voids);
    lemma_blocked_keeps(c, pillars);
    let p = blocked(c, pillars);
    lemma_blocked_keeps(p, beams);
    let b = blocked(p, beams);
    assert(framed(b).dom() =~= b.dom());
}

/// Framing makes every tile of the outermost ring hookable, whatever was
/// there before.
pub proof fn lemma_frame_ring_hookable(m: Tiles)
    ensures
        framed(m).dom() == m.dom(),
        forall|k: (usize, usize)|
            m.dom().contains(k) && on_ring(k) ==> #[trigger] framed(m)[k] == TILE_HOOKABLE,
{
    assert(framed(m).dom() =~= m.dom());
}

/// Spreading freeze over a level with no freeze yet turns only open tiles of
/// the freeze zone, each of which has a hookable neighbour afterwards, and
/// leaves every tile outside the zone as it was.
pub proof fn lemma_freeze_skin(m: Tiles)
    requires
        m.dom() == keys_below(HEIGHT, WIDTH),
        freeze_free(m),
    ensures
        frozen(m).dom() == m.dom(),
        forall|k: (usize, usize)|
            m.dom().contains(k) && #[trigger] frozen(m)[k] == TILE_FREEZE ==> in_freeze_zone(k)
                && m[k] == TILE_EMPTY && touches_hookable(frozen(m), k),
        forall|k: (usize, usize)|
            m.dom().contains(k) && !in_freeze_zone(k) ==> #[trigger] frozen(m)[k] == m[k],
{
    let f = frozen(m);
    assert(f.dom() =~= m.dom());
    assert forall|k: (usize, usize)|
        m.dom().contains(k) && #[trigger] f[k] == TILE_FREEZE implies in_freeze_zone(k) && m[k]
            == TILE_EMPTY && touches_hookable(f, k) by {
        assert(m[k] != TILE_FREEZE);
        let (r, c) = (k.0 as int, k.1 as int);
        assert forall|dr: int, dc: int|
            -1 <= dr <= 1 && -1 <= dc <= 1 implies #[trigger] hookable_at(f, r + dr, c + dc)
            == hookable_at(m, r + dr, c + dc) by {
            let n = ((r + dr) as usize, (c + dc) as usize);
            assert(m.dom().contains(n));
        }
        assert(hookable_at(f, r - 1, c + 1) == hookable_at(m, r + -1, c + 1));
        assert(hookable_at(f, r - 1, c) == hookable_at(m, r + -1, c + 0));
        assert(hookable_at(f, r - 1, c - 1) == hookable_at(m, r + -1, c + -1));
        assert(hookable_at(f, r, c - 1) == hookable_at(m, r + 0, c + -1));
        assert(hookable_at(f, r, c + 1) == hookable_at(m, r + 0, c + 1));
        assert(hookable_at(f, r + 1, c + 1) == hookable_at(m, r + 1, c + 1));
        assert(hookable_at(f, r + 1, c) == hookable_at(m, r + 1, c + 0));
        assert(hookable_at(f, r + 1, c - 1) == hookable_at(m, r + 1, c + -1));
    }
}

/// In every generated terrain the outermost ring is hookable, and each freeze
/// tile lies in the freeze zone with a hookable neighbour.
pub proof fn lemma_level_ring_and_skin(
    voids: Seq<Placement>,
    pillars: Seq<Placement>,
    beams: Seq<Placement>,
)
    ensures
        gore_terrain(voids, pillars, beams).dom() == keys_below(HEIGHT, WIDTH),
        forall|k: (usize, usize)|
            keys_below(HEIGHT, WIDTH).contains(k) && on_ring(k) ==> #[trigger] gore_terrain(
                voids,
                pillars,
                beams,
            )[k] == TILE_HOOKABLE,
        forall|k: (usize, usize)|
            keys_below(HEIGHT, WIDTH).contains(k) && #[trigger] gore_terrain(
                voids,
                pillars,
                beams,
            )[k] == TILE_FREEZE ==> in_freeze_zone(k) && touches_hookable(
                gore_terrain(voids, pillars, beams),
                k,
            ),
{
    let b = blocked(blocked(carved(base_terrain(), voids), pillars), beams);
    lemma_framed_terrain(voids, pillars, beams);
    lemma_frame_ring_hookable(b);
    lemma_freeze_skin(framed(b));
    assert forall|k: (usize, usize)|
        keys_below(HEIGHT, WIDTH).contains(k) && on_ring(k) implies #[trigger] gore_terrain(
            voids,
            pillars,
            beams,
        )[k] == TILE_HOOKABLE by {
        assert(!in_freeze_zone(k));
        assert(framed(b)[k] == TILE_HOOKABLE);
    }
}

/// Two levels built from the same draws are identical, layer by layer.
pub proof fn lemma_same_draws_same_level(
    voids: Seq<Placement>,
    pillars: Seq<Placement>,
    beams: Seq<Placement>,
    first: Seq<PhysicsLayer>,
    second: Seq<PhysicsLayer>,
)
    requires
        is_gore_level(first, gore_terrain(voids, pillars, beams)),
        is_gore_level(second, gore_terrain(voids, pillars, beams)),
    ensures
        first.len() == second.len(),
        forall|i: int|
            0 <= i < first.len() ==> (#[trigger] first[i]).tiles@ == second[i].tiles@ && first[i].kind
                == second[i].kind && first[i].image == second[i].image && first[i].color
                == second[i].color,
{
}

} // verus!
