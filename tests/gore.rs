use gore_generator::gore::{
    build_level, draw_placements, GoreGenerator, LayerKind, PhysicsLayer, Placement, Rgba,
    FINISH_BUFFER, HEIGHT, START_BUFFER, TILE_EMPTY, TILE_FINISH, TILE_FREEZE, TILE_HOOKABLE,
    TILE_SPAWN, TILE_START, WIDTH,
};
use gore_generator::grid::TileGrid;
use gore_generator::shapes::{
    place_rect, place_rect_border, place_rect_border_center, place_rect_center,
};
use rand::rngs::StdRng;
use rand::SeedableRng;

fn cells(g: &TileGrid) -> Vec<Vec<u8>> {
    (0..g.height())
        .map(|r| (0..g.width()).map(|c| g.get(r, c)).collect())
        .collect()
}

fn level(seed: u64) -> Vec<PhysicsLayer> {
    let mut rng = StdRng::seed_from_u64(seed);
    GoreGenerator::generate(&mut rng)
}

#[test]
fn grid_new_get_set() {
    let mut g = TileGrid::new(3, 4, 7);
    assert_eq!(g.height(), 3);
    assert_eq!(g.width(), 4);
    assert_eq!(g.get(2, 3), 7);
    g.set(1, 2, 9);
    assert_eq!(g.get(1, 2), 9);
    assert_eq!(g.get(2, 1), 7);
}

#[test]
fn grid_set_out_of_range_is_ignored() {
    let mut g = TileGrid::new(3, 4, 0);
    g.set(3, 0, 5);
    g.set(0, 4, 5);
    g.set(usize::MAX, usize::MAX, 5);
    assert_eq!(cells(&g), vec![vec![0u8; 4]; 3]);
}

#[test]
fn place_rect_fills_half_open_rectangle() {
    let mut g = TileGrid::new(4, 5, 0);
    place_rect(&mut g, 1, 2, 3, 2, 1);
    let c = cells(&g);
    for r in 0..4 {
        for col in 0..5 {
            let inside = (1..4).contains(&col) && (2..4).contains(&r);
            assert_eq!(c[r][col], if inside { 1 } else { 0 }, "at ({}, {})", r, col);
        }
    }
}

#[test]
fn place_rect_clamps_off_grid_parts() {
    let mut g = TileGrid::new(5, 5, 0);
    place_rect(&mut g, -3, -3, 5, 5, 1);
    let c = cells(&g);
    for r in 0..5 {
        for col in 0..5 {
            assert_eq!(c[r][col], if r < 2 && col < 2 { 1 } else { 0 });
        }
    }
}

#[test]
fn place_rect_survives_extreme_coordinates() {
    let mut g = TileGrid::new(5, 5, 0);
    place_rect(&mut g, i64::MAX - 1, 0, i64::MAX, 3, 1);
    place_rect(&mut g, i64::MIN, i64::MIN, i64::MAX, i64::MAX, 1);
    place_rect(&mut g, 2, 2, -4, 3, 1);
    assert_eq!(cells(&g), vec![vec![0u8; 5]; 5]);
    place_rect(&mut g, i64::MIN, i64::MIN, i64::MAX, i64::MAX, 1);
    place_rect(&mut g, -10, -10, i64::MAX, i64::MAX, 2);
    assert_eq!(cells(&g), vec![vec![2u8; 5]; 5]);
}

#[test]
fn place_rect_center_truncates_half() {
    let mut g = TileGrid::new(10, 10, 0);
    // width 5, height 3: top-left (4 - 2, 5 - 1) = (2, 4)
    place_rect_center(&mut g, 4, 5, 5, 3, 1);
    let mut h = TileGrid::new(10, 10, 0);
    place_rect(&mut h, 2, 4, 5, 3, 1);
    assert_eq!(cells(&g), cells(&h));
    assert_eq!(g.get(4, 2), 1);
    assert_eq!(g.get(4, 1), 0);
    assert_eq!(g.get(6, 6), 1);
    assert_eq!(g.get(6, 7), 0);
}

#[test]
fn place_rect_border_keeps_interior() {
    let mut g = TileGrid::new(8, 8, 1);
    place_rect_border(&mut g, 1, 1, 6, 6, 2, 0);
    let c = cells(&g);
    for r in 0..8 {
        for col in 0..8 {
            let in_rect = (1..7).contains(&col) && (1..7).contains(&r);
            let in_hole = (3..5).contains(&col) && (3..5).contains(&r);
            let expected = if in_rect && !in_hole { 0 } else { 1 };
            assert_eq!(c[r][col], expected, "at ({}, {})", r, col);
        }
    }
}

#[test]
fn place_rect_border_zero_thickness_paints_nothing() {
    let mut g = TileGrid::new(6, 6, 1);
    place_rect_border(&mut g, 1, 1, 3, 3, 0, 0);
    assert_eq!(cells(&g), vec![vec![1u8; 6]; 6]);
    let mut a = TileGrid::new(6, 6, 1);
    let mut b = TileGrid::new(6, 6, 1);
    place_rect_border(&mut a, 1, 1, 0, 3, 0, 0);
    place_rect(&mut b, 1, 1, 0, 3, 0);
    assert_eq!(cells(&a), cells(&b));
}

#[test]
fn place_rect_border_thick_fills_fully() {
    for (w, h, t) in [(6i64, 4i64, 2i64), (5, 9, 3), (4, 4, 2), (7, 3, 5)] {
        let mut a = TileGrid::new(12, 12, 1);
        let mut b = TileGrid::new(12, 12, 1);
        place_rect_border(&mut a, 2, 3, w, h, t, 0);
        place_rect(&mut b, 2, 3, w, h, 0);
        assert_eq!(cells(&a), cells(&b), "w {} h {} t {}", w, h, t);
    }
}

#[test]
fn hollow_rectangle_carving() {
    let mut g = TileGrid::new(HEIGHT, WIDTH, TILE_HOOKABLE);
    place_rect_border_center(&mut g, 50, 30, 10, 10, 3, TILE_EMPTY);
    let c = cells(&g);
    for r in 0..HEIGHT {
        for col in 0..WIDTH {
            let in_rect = (45..55).contains(&col) && (25..35).contains(&r);
            let in_hole = (48..52).contains(&col) && (28..32).contains(&r);
            let expected = if in_rect && !in_hole { TILE_EMPTY } else { TILE_HOOKABLE };
            assert_eq!(c[r][col], expected, "at ({}, {})", r, col);
        }
    }
}

#[test]
fn uncarved_level_layout() {
    let layers = build_level(&vec![], &vec![], &vec![]);
    let game = cells(&layers[0].tiles);
    let front = cells(&layers[1].tiles);
    assert_eq!(game[57][5], TILE_SPAWN);
    for r in 0..HEIGHT {
        assert_eq!(front[r][10], TILE_START);
        assert_eq!(front[r][340], TILE_FINISH);
        assert_eq!(front[r][11], TILE_EMPTY);
        for col in 11..340 {
            assert_eq!(game[r][col], TILE_HOOKABLE);
        }
    }
    for r in 0..HEIGHT {
        assert_eq!(game[r][0], TILE_HOOKABLE);
        assert_eq!(game[r][WIDTH - 1], TILE_HOOKABLE);
    }
    for col in 0..WIDTH {
        assert_eq!(game[0][col], TILE_HOOKABLE);
        assert_eq!(game[HEIGHT - 1][col], TILE_HOOKABLE);
    }
    // open tiles of the start column beside solid terrain freeze
    for r in 1..HEIGHT - 1 {
        assert_eq!(game[r][START_BUFFER], TILE_FREEZE);
        assert_eq!(game[r][START_BUFFER - 1], TILE_EMPTY);
        assert_eq!(game[r][WIDTH - FINISH_BUFFER], TILE_EMPTY);
    }
}

#[test]
fn physics_layers_order_and_tint() {
    let layers = build_level(&vec![], &vec![], &vec![]);
    assert_eq!(layers.len(), 4);
    assert_eq!(layers[0].kind, LayerKind::Game);
    assert_eq!(layers[1].kind, LayerKind::Front);
    assert_eq!(layers[2].kind, LayerKind::Tiles);
    assert_eq!(layers[2].image, Some(0));
    assert_eq!(layers[3].kind, LayerKind::Tiles);
    assert_eq!(layers[3].image, Some(1));
    assert_eq!(layers[3].color, Rgba { r: 0, g: 0, b: 0, a: 200 });
    assert_eq!(cells(&layers[2].tiles), vec![vec![0u8; WIDTH]; HEIGHT]);
    assert_eq!(cells(&layers[3].tiles), vec![vec![0u8; WIDTH]; HEIGHT]);
}

#[test]
fn single_void_and_block() {
    let void = Placement { x: 100, y: 30, width: 10, height: 10 };
    let block = Placement { x: 200, y: 30, width: 11, height: 17 };
    let layers = build_level(&vec![void], &vec![block], &vec![]);
    let game = cells(&layers[0].tiles);
    // void shell [95, 105) x [25, 35), hole [98, 102) x [28, 32)
    assert_eq!(game[30][100], TILE_HOOKABLE);
    assert_eq!(game[26][96], TILE_EMPTY);
    assert_eq!(game[25][96], TILE_FREEZE);
    assert_eq!(game[27][97], TILE_FREEZE);
    // clearing [195, 206) x [22, 39); block 4 x 10 at [198, 202) x [25, 35)
    assert_eq!(game[30][200], TILE_HOOKABLE);
    assert_eq!(game[23][196], TILE_EMPTY);
    assert_eq!(game[24][197], TILE_FREEZE);
    assert_eq!(game[22][195], TILE_FREEZE);
}

#[test]
fn drawn_placements_lie_in_bounds() {
    let mut rng = StdRng::seed_from_u64(7);
    let ps = draw_placements(&mut rng, 200, 6, 30, 3, 15);
    assert_eq!(ps.len(), 200);
    for p in &ps {
        assert!((10..340).contains(&p.x));
        assert!((0..60).contains(&p.y));
        assert!((6..30).contains(&p.width));
        assert!((3..15).contains(&p.height));
    }
    assert!(ps.iter().any(|p| p.x != ps[0].x));
}

#[test]
fn generated_border_is_hookable() {
    for seed in [1u64, 2, 3] {
        let layers = level(seed);
        let game = cells(&layers[0].tiles);
        for r in 0..HEIGHT {
            for col in 0..WIDTH {
                if r == 0 || r == HEIGHT - 1 || col == 0 || col == WIDTH - 1 {
                    assert_eq!(game[r][col], TILE_HOOKABLE);
                }
            }
        }
    }
}

#[test]
fn generated_freeze_touches_hookable() {
    for seed in [1u64, 2, 3] {
        let layers = level(seed);
        let game = cells(&layers[0].tiles);
        let mut freeze = 0;
        for r in 0..HEIGHT {
            for col in 0..WIDTH {
                if game[r][col] != TILE_FREEZE {
                    continue;
                }
                freeze += 1;
                assert!(r >= 1 && r < HEIGHT - 1);
                assert!(col >= START_BUFFER && col < WIDTH - FINISH_BUFFER);
                let mut touches = false;
                for dr in [-1i64, 0, 1] {
                    for dc in [-1i64, 0, 1] {
                        if dr == 0 && dc == 0 {
                            continue;
                        }
                        let nr = (r as i64 + dr) as usize;
                        let nc = (col as i64 + dc) as usize;
                        touches |= game[nr][nc] == TILE_HOOKABLE;
                    }
                }
                assert!(touches, "freeze at ({}, {})", r, col);
            }
        }
        assert!(freeze > 0);
    }
}

#[test]
fn generation_is_deterministic() {
    let a = level(42);
    let b = level(42);
    for i in 0..4 {
        assert_eq!(cells(&a[i].tiles), cells(&b[i].tiles));
        assert_eq!(a[i].kind, b[i].kind);
        assert_eq!(a[i].image, b[i].image);
        assert_eq!(a[i].color, b[i].color);
    }
    let c = level(43);
    assert_ne!(cells(&a[0].tiles), cells(&c[0].tiles));
}

#[test]
fn building_twice_from_same_placements_matches() {
    let voids = vec![Placement { x: 50, y: 10, width: 12, height: 6 }];
    let pillars = vec![Placement { x: 80, y: 40, width: 12, height: 20 }];
    let beams = vec![Placement { x: 300, y: 5, width: 20, height: 12 }];
    let a = build_level(&voids, &pillars, &beams);
    let b = build_level(&voids, &pillars, &beams);
    assert_eq!(cells(&a[0].tiles), cells(&b[0].tiles));
}
