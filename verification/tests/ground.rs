use sokoban::ground::{classify, classify_window, rule_fits, RULES, RULE_COUNT};
use sokoban::reach::flood;
use sokoban::{Level, LevelError, Tile, ARENA_HEIGHT, ARENA_WIDTH};

const ROOM: &str = "#####\n#@  #\n#   #\n#   #\n#####";

const WAREHOUSE: &str = "        #######\n#########     #\n#..  ##@# ### #####\n#..          $  $ #\n#..  ##### ## #   #\n######   # ## # ###\n         # $ $  #\n         ##$  ###\n          #  $#\n          #   #\n          #####";

/// The rule table written out as one decision, first match first.
fn by_cases(w: [bool; 9]) -> usize {
    match (w[0], w[1], w[2], w[3], w[4], w[5], w[6], w[7], w[8]) {
        (_, true, true, false, true, true, _, false, _) => 1,
        (_, true, false, false, true, true, _, false, _) => 16,
        (true, true, _, true, true, false, _, false, _) => 2,
        (false, true, _, true, true, false, _, false, _) => 17,
        (_, false, _, false, true, true, _, true, true) => 3,
        (_, false, _, false, true, true, _, true, false) => 18,
        (_, false, _, true, true, false, true, true, _) => 4,
        (_, false, _, true, true, false, false, true, _) => 19,
        (_, true, true, false, true, true, _, true, true) => 5,
        (true, true, _, true, true, false, true, true, _) => 6,
        (true, true, true, true, true, true, _, false, _) => 7,
        (_, false, _, true, true, true, true, true, true) => 8,
        (_, false, _, true, true, true, _, false, _) => 14,
        (_, true, _, false, true, false, _, true, _) => 15,
        (_, true, _, false, true, false, _, false, _) => 20,
        (_, false, _, true, true, false, _, false, _) => 21,
        (_, false, _, false, true, false, _, true, _) => 22,
        (_, false, _, false, true, true, _, false, _) => 23,
        (false, true, false, true, true, true, _, false, _) => 24,
        (false, true, _, true, true, false, false, true, _) => 25,
        (_, true, false, false, true, true, _, true, false) => 26,
        (_, false, _, true, true, true, false, true, false) => 27,
        (false, true, false, true, true, true, false, true, false) => 28,
        (false, true, true, true, true, true, _, false, false) => 29,
        (true, true, false, true, true, true, false, false, _) => 30,
        (_, _, _, _, false, _, false, true, true) => 10,
        (_, _, _, _, false, _, true, true, false) => 11,
        (_, _, _, _, false, _, true, true, true) => 12,
        (_, _, _, _, false, _, false, true, false) => 13,
        (_, _, _, _, true, _, _, _, _) => 9,
        (_, _, _, _, _, _, _, _, _) => 0,
    }
}

fn window_of_bits(bits: usize) -> [bool; 9] {
    let mut w = [false; 9];
    for k in 0..9 {
        w[k] = bits & (1 << k) != 0;
    }
    w
}

fn mask_of(rows: [&str; 16]) -> [[bool; ARENA_WIDTH]; ARENA_HEIGHT] {
    let mut mask = [[false; ARENA_WIDTH]; ARENA_HEIGHT];
    for (y, row) in rows.iter().enumerate() {
        for (x, c) in row.chars().enumerate() {
            mask[y][x] = c == 'o';
        }
    }
    mask
}

#[test]
fn every_window_gets_the_variant_of_its_first_rule() {
    for bits in 0..512 {
        let w = window_of_bits(bits);
        assert_eq!(classify_window(&w), by_cases(w), "window {:09b}", bits);
    }
}

#[test]
fn the_table_has_its_rules_in_order() {
    assert_eq!(RULE_COUNT, 31);
    assert_eq!(RULES.len(), 31);
    let variants: Vec<u8> = RULES.iter().map(|r| r[9]).collect();
    assert_eq!(
        variants,
        vec![
            1, 16, 2, 17, 3, 18, 4, 19, 5, 6, 7, 8, 14, 15, 20, 21, 22, 23, 24, 25, 26, 27, 28, 29,
            30, 10, 11, 12, 13, 9, 0
        ]
    );
}

#[test]
fn rule_fits_honours_wildcards() {
    // The first rule: wide upper left corner.
    let w = [false, true, true, false, true, true, false, false, false];
    assert!(rule_fits(0, &w));
    let w = [true, true, true, false, true, true, true, false, true];
    assert!(rule_fits(0, &w));
    let w = [true, true, true, true, true, true, true, false, true];
    assert!(!rule_fits(0, &w));
    // The last rule fits everything.
    for bits in 0..512 {
        assert!(rule_fits(30, &window_of_bits(bits)));
    }
}

#[test]
fn named_shapes_get_their_variants() {
    let t = true;
    let f = false;
    assert_eq!(classify_window(&[f, t, t, f, t, t, f, f, f]), 1);
    assert_eq!(classify_window(&[t, t, f, t, t, f, f, f, f]), 2);
    assert_eq!(classify_window(&[f, f, f, f, t, t, f, t, t]), 3);
    assert_eq!(classify_window(&[f, f, f, t, t, f, t, t, f]), 4);
    assert_eq!(classify_window(&[f, t, f, f, t, t, f, f, f]), 16);
    assert_eq!(classify_window(&[f, t, f, t, t, f, f, f, f]), 17);
    assert_eq!(classify_window(&[f, f, f, f, t, t, f, t, f]), 18);
    assert_eq!(classify_window(&[f, f, f, t, t, f, f, t, f]), 19);
    assert_eq!(classify_window(&[f, f, f, t, t, t, f, f, f]), 14);
    assert_eq!(classify_window(&[f, t, f, f, t, f, f, t, f]), 15);
    assert_eq!(classify_window(&[f, t, f, f, t, f, f, f, f]), 20);
    assert_eq!(classify_window(&[f, f, f, t, t, f, f, f, f]), 21);
    assert_eq!(classify_window(&[f, f, f, f, t, f, f, t, f]), 22);
    assert_eq!(classify_window(&[f, f, f, f, t, t, f, f, f]), 23);
    assert_eq!(classify_window(&[f, t, f, t, t, t, f, f, f]), 24);
    assert_eq!(classify_window(&[f, t, f, t, t, t, f, t, f]), 28);
    assert_eq!(classify_window(&[t, t, t, t, t, t, t, t, t]), 9);
    assert_eq!(classify_window(&[f, f, f, f, t, f, f, f, f]), 9);
    assert_eq!(classify_window(&[f, f, f, f, f, f, f, f, f]), 0);
    assert_eq!(classify_window(&[t, t, t, t, f, t, f, f, f]), 0);
}

#[test]
fn a_void_cell_is_decided_by_the_row_below() {
    for bits in 0..512 {
        let w = window_of_bits(bits);
        if w[4] {
            let v = classify_window(&w);
            assert!((1..=9).contains(&v) || (14..=30).contains(&v));
        } else {
            let expected = match (w[6], w[7], w[8]) {
                (_, false, _) => 0,
                (false, true, true) => 10,
                (true, true, false) => 11,
                (true, true, true) => 12,
                (false, true, false) => 13,
            };
            assert_eq!(classify_window(&w), expected);
        }
    }
}

#[test]
fn flood_fills_the_room() {
    let level = Level::parse(ROOM).unwrap();
    let mask = flood(&level, (8, 6));
    for y in 0..ARENA_HEIGHT {
        for x in 0..ARENA_WIDTH {
            let floor = (8..11).contains(&x) && (6..9).contains(&y);
            assert_eq!(mask[y][x], floor, "cell {} {}", x, y);
        }
    }
}

#[test]
fn flood_from_a_wall_finds_nothing() {
    let level = Level::parse(ROOM).unwrap();
    let mask = flood(&level, (7, 5));
    assert_eq!(mask, [[false; ARENA_WIDTH]; ARENA_HEIGHT]);
    let mask = flood(&level, (40, 40));
    assert_eq!(mask, [[false; ARENA_WIDTH]; ARENA_HEIGHT]);
}

#[test]
fn flood_from_outside_the_room_covers_the_outside() {
    let level = Level::parse(ROOM).unwrap();
    let mask = flood(&level, (0, 0));
    for y in 0..ARENA_HEIGHT {
        for x in 0..ARENA_WIDTH {
            let room = (7..12).contains(&x) && (5..10).contains(&y);
            assert_eq!(mask[y][x], !room, "cell {} {}", x, y);
        }
    }
}

#[test]
fn flood_reaches_the_border_of_the_arena() {
    let mut tiles = [[Tile::Empty; ARENA_WIDTH]; ARENA_HEIGHT];
    tiles[15][19] = Tile::Player;
    let level = Level::from_tiles(tiles);
    assert_eq!(level.reachable(), Ok([[true; ARENA_WIDTH]; ARENA_HEIGHT]));
}

#[test]
fn reachable_ignores_boxes_and_stops_at_walls() {
    let level = Level::parse("#######\n#@$ # #\n#######").unwrap();
    // Width 7, height 3: margins 6 and 6.
    let mask = level.reachable().unwrap();
    assert!(mask[7][7]);
    assert!(mask[7][8]);
    assert!(mask[7][9]);
    assert!(!mask[7][10]);
    assert!(!mask[7][11]);
    assert!(!mask[6][7]);
    let count: usize = mask.iter().map(|row| row.iter().filter(|b| **b).count()).sum();
    assert_eq!(count, 3);
}

#[test]
fn reachable_never_flags_a_wall() {
    let level = Level::parse(WAREHOUSE).unwrap();
    let mask = level.reachable().unwrap();
    let mut floor = 0;
    for y in 0..ARENA_HEIGHT {
        for x in 0..ARENA_WIDTH {
            if mask[y][x] {
                floor += 1;
                assert!(!level.is_wall(x, y));
            }
        }
    }
    // Row by row from the top of the text: 0, 5, 7, 17, 9, 3, 6, 3, 3, 3, 0.
    assert_eq!(floor, 56);
}

#[test]
fn reachable_fails_without_player() {
    let level = Level::from_tiles([[Tile::Empty; ARENA_WIDTH]; ARENA_HEIGHT]);
    assert_eq!(level.reachable(), Err(LevelError::NoPlayer));
    assert_eq!(level.ground(), Err(LevelError::NoPlayer));
}

#[test]
fn ground_of_the_room() {
    let level = Level::parse(ROOM).unwrap();
    let mut expected = [[0usize; ARENA_WIDTH]; ARENA_HEIGHT];
    expected[5][8] = 10;
    expected[5][9] = 12;
    expected[5][10] = 11;
    expected[6][8] = 3;
    expected[6][9] = 8;
    expected[6][10] = 4;
    expected[7][8] = 5;
    expected[7][9] = 9;
    expected[7][10] = 6;
    expected[8][8] = 1;
    expected[8][9] = 7;
    expected[8][10] = 2;
    assert_eq!(level.ground(), Ok(expected));
}

#[test]
fn ground_of_a_corridor() {
    let level = Level::parse("#####\n#@  #\n#####").unwrap();
    // Width 5, height 3: margins 7 and 6. Floor at (8..11, 7).
    let mut expected = [[0usize; ARENA_WIDTH]; ARENA_HEIGHT];
    expected[6][8] = 10;
    expected[6][9] = 12;
    expected[6][10] = 11;
    expected[7][8] = 23;
    expected[7][9] = 14;
    expected[7][10] = 21;
    assert_eq!(level.ground(), Ok(expected));
}

#[test]
fn ground_is_the_classification_of_the_floor() {
    let level = Level::parse(WAREHOUSE).unwrap();
    let mask = level.reachable().unwrap();
    assert_eq!(level.ground(), Ok(classify(&mask)));
}

#[test]
fn classify_gives_the_same_grid_every_time() {
    let level = Level::parse(WAREHOUSE).unwrap();
    let mask = level.reachable().unwrap();
    assert_eq!(classify(&mask), classify(&mask));
    assert_eq!(level.ground(), level.ground());
}

#[test]
fn classify_leaves_the_border_at_zero() {
    let grid = classify(&[[true; ARENA_WIDTH]; ARENA_HEIGHT]);
    for y in 0..ARENA_HEIGHT {
        for x in 0..ARENA_WIDTH {
            let border = x == 0 || y == 0 || x == ARENA_WIDTH - 1 || y == ARENA_HEIGHT - 1;
            assert_eq!(grid[y][x], if border { 0 } else { 9 }, "cell {} {}", x, y);
        }
    }
}

#[test]
fn classify_reads_the_window_row_by_row() {
    let mask = mask_of([
        "....................",
        "....................",
        "..oo................",
        "...o................",
        "...oo...............",
        "....................",
        "....................",
        "....................",
        "....................",
        "....................",
        "....................",
        "....................",
        "....................",
        "....................",
        "....................",
        "....................",
    ]);
    let grid = classify(&mask);
    // (2, 2): floor to the right only.
    assert_eq!(grid[2][2], 23);
    // (3, 2): floor to the left and below.
    assert_eq!(grid[2][3], 19);
    // (3, 3): floor above and below.
    assert_eq!(grid[3][3], 15);
    // (3, 4): floor above and to the right.
    assert_eq!(grid[4][3], 16);
    // (4, 4): floor to the left only.
    assert_eq!(grid[4][4], 21);
    // Void cells right above floor.
    assert_eq!(grid[1][2], 10);
    assert_eq!(grid[1][3], 11);
    assert_eq!(grid[3][4], 11);
    assert_eq!(grid[3][2], 0);
    assert_eq!(grid[1][1], 0);
    assert_eq!(grid[5][3], 0);
}
