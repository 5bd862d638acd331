use sokoban::{
    Direction, Input, Level, LevelError, Movable, MoveSystem, Outcome, PlayState, PlayerSystem, Tile,
    ARENA_HEIGHT, ARENA_WIDTH, SPEED, TILE_SIZE,
};

const NONE: Input = Input { up: false, down: false, left: false, right: false };

fn open_level() -> Level {
    Level::from_tiles([[Tile::Empty; ARENA_WIDTH]; ARENA_HEIGHT])
}

fn level_with_walls(walls: &[(usize, usize)]) -> Level {
    let mut tiles = [[Tile::Empty; ARENA_WIDTH]; ARENA_HEIGHT];
    for &(x, y) in walls {
        tiles[y][x] = Tile::Wall;
    }
    Level::from_tiles(tiles)
}

fn state(level: Level, player: (usize, usize), boxes: &[(usize, usize)]) -> PlayState {
    PlayState { level, player, boxes: boxes.to_vec(), movable: Movable { moving_to: None } }
}

#[test]
fn a_wall_blocks_the_player() {
    for (x, y) in [(5, 5), (0, 0), (19, 14), (7, 3)] {
        let mut s = state(level_with_walls(&[(x, y + 1)]), (x, y), &[(10, 10)]);
        assert_eq!(PlayerSystem.request(&mut s, Direction::Up), Outcome::Rejected);
        assert_eq!(s.player, (x, y));
        assert_eq!(s.boxes, vec![(10, 10)]);
        assert_eq!(s.movable.moving_to, None);
    }
}

#[test]
fn the_player_pushes_a_box() {
    let mut s = state(open_level(), (5, 5), &[(5, 6)]);
    assert!(!s.level.is_wall(5, 7));
    assert_eq!(PlayerSystem.request(&mut s, Direction::Up), Outcome::Pushed(0));
    assert_eq!(s.player, (5, 6));
    assert_eq!(s.boxes, vec![(5, 7)]);
    assert_eq!(s.movable.moving_to, Some((5, 6, Direction::Up)));
}

#[test]
fn a_second_box_blocks_the_push() {
    let mut s = state(open_level(), (5, 5), &[(5, 6), (5, 7)]);
    assert_eq!(PlayerSystem.request(&mut s, Direction::Up), Outcome::Rejected);
    assert_eq!(s.player, (5, 5));
    assert_eq!(s.boxes, vec![(5, 6), (5, 7)]);
    assert_eq!(s.movable.moving_to, None);
}

#[test]
fn a_wall_behind_the_box_blocks_the_push() {
    let mut s = state(level_with_walls(&[(5, 7)]), (5, 5), &[(5, 6)]);
    assert_eq!(PlayerSystem.request(&mut s, Direction::Up), Outcome::Rejected);
    assert_eq!(s.player, (5, 5));
    assert_eq!(s.boxes, vec![(5, 6)]);
    assert_eq!(s.movable.moving_to, None);
}

#[test]
fn a_pending_move_shuts_out_requests() {
    let mut s = state(open_level(), (5, 5), &[(5, 6)]);
    assert_eq!(PlayerSystem.request(&mut s, Direction::Right), Outcome::Walked);
    assert_eq!(s.movable.moving_to, Some((6, 5, Direction::Right)));
    for dir in [Direction::Up, Direction::Down, Direction::Left, Direction::Right] {
        assert_eq!(PlayerSystem.request(&mut s, dir), Outcome::Ignored);
        assert_eq!(s.player, (6, 5));
        assert_eq!(s.boxes, vec![(5, 6)]);
        assert_eq!(s.movable.moving_to, Some((6, 5, Direction::Right)));
    }
    let all = Input { up: true, down: true, left: true, right: true };
    assert_eq!(PlayerSystem.run(&mut s, all), Outcome::Ignored);
    assert_eq!(s.player, (6, 5));
    assert_eq!(s.movable.moving_to, Some((6, 5, Direction::Right)));
}

#[test]
fn the_player_walks_in_all_four_directions() {
    let cases = [
        (Direction::Up, (5, 6)),
        (Direction::Down, (5, 4)),
        (Direction::Left, (4, 5)),
        (Direction::Right, (6, 5)),
    ];
    for (dir, to) in cases {
        let mut s = state(open_level(), (5, 5), &[]);
        assert_eq!(PlayerSystem.request(&mut s, dir), Outcome::Walked);
        assert_eq!(s.player, to);
        assert_eq!(s.movable.moving_to, Some((to.0, to.1, dir)));
    }
}

#[test]
fn the_player_pushes_in_all_four_directions() {
    let cases = [
        (Direction::Up, (5, 6), (5, 7)),
        (Direction::Down, (5, 4), (5, 3)),
        (Direction::Left, (4, 5), (3, 5)),
        (Direction::Right, (6, 5), (7, 5)),
    ];
    for (dir, at, to) in cases {
        let mut s = state(open_level(), (5, 5), &[(1, 1), at]);
        assert_eq!(PlayerSystem.request(&mut s, dir), Outcome::Pushed(1));
        assert_eq!(s.player, at);
        assert_eq!(s.boxes, vec![(1, 1), to]);
    }
}

#[test]
fn the_edge_of_the_arena_blocks_like_a_wall() {
    let mut s = state(open_level(), (0, 0), &[]);
    assert_eq!(PlayerSystem.request(&mut s, Direction::Down), Outcome::Rejected);
    assert_eq!(PlayerSystem.request(&mut s, Direction::Left), Outcome::Rejected);
    assert_eq!(s.player, (0, 0));
    let mut s = state(open_level(), (19, 15), &[]);
    assert_eq!(PlayerSystem.request(&mut s, Direction::Up), Outcome::Rejected);
    assert_eq!(PlayerSystem.request(&mut s, Direction::Right), Outcome::Rejected);
    assert_eq!(s.player, (19, 15));
    // A box on the edge cannot be pushed out.
    let mut s = state(open_level(), (18, 3), &[(19, 3)]);
    assert_eq!(PlayerSystem.request(&mut s, Direction::Right), Outcome::Rejected);
    assert_eq!(s.boxes, vec![(19, 3)]);
    let mut s = state(open_level(), (4, 1), &[(4, 0)]);
    assert_eq!(PlayerSystem.request(&mut s, Direction::Down), Outcome::Rejected);
    assert_eq!(s.boxes, vec![(4, 0)]);
}

#[test]
fn is_blocked_agrees_with_request() {
    let s = state(level_with_walls(&[(5, 6)]), (5, 5), &[(6, 5), (7, 5), (4, 5)]);
    assert!(s.is_blocked(Direction::Up));
    assert!(s.is_blocked(Direction::Right));
    assert!(!s.is_blocked(Direction::Left));
    assert!(!s.is_blocked(Direction::Down));
    assert_eq!(s.find_box(6, 5), Some(0));
    assert_eq!(s.find_box(4, 5), Some(2));
    assert_eq!(s.find_box(5, 5), None);
}

#[test]
fn run_without_input_does_nothing() {
    let mut s = state(open_level(), (5, 5), &[(5, 6)]);
    assert_eq!(PlayerSystem.run(&mut s, NONE), Outcome::Ignored);
    assert_eq!(s.player, (5, 5));
    assert_eq!(s.boxes, vec![(5, 6)]);
    assert_eq!(s.movable.moving_to, None);
}

#[test]
fn run_takes_the_single_direction_held() {
    let mut s = state(open_level(), (5, 5), &[(5, 6)]);
    assert_eq!(PlayerSystem.run(&mut s, Input { up: true, ..NONE }), Outcome::Pushed(0));
    assert_eq!(s.player, (5, 6));
    assert_eq!(s.boxes, vec![(5, 7)]);
    assert_eq!(s.movable.moving_to, Some((5, 6, Direction::Up)));
}

#[test]
fn run_prefers_the_last_direction_that_is_free() {
    let all = Input { up: true, down: true, left: true, right: true };
    let mut s = state(open_level(), (5, 5), &[]);
    assert_eq!(PlayerSystem.run(&mut s, all), Outcome::Walked);
    assert_eq!(s.movable.moving_to, Some((6, 5, Direction::Right)));
    let mut s = state(level_with_walls(&[(6, 5)]), (5, 5), &[]);
    assert_eq!(PlayerSystem.run(&mut s, all), Outcome::Walked);
    assert_eq!(s.movable.moving_to, Some((4, 5, Direction::Left)));
    let mut s = state(level_with_walls(&[(6, 5), (4, 5)]), (5, 5), &[]);
    assert_eq!(PlayerSystem.run(&mut s, all), Outcome::Walked);
    assert_eq!(s.movable.moving_to, Some((5, 4, Direction::Down)));
    let mut s = state(level_with_walls(&[(6, 5), (4, 5), (5, 4)]), (5, 5), &[]);
    assert_eq!(PlayerSystem.run(&mut s, all), Outcome::Walked);
    assert_eq!(s.movable.moving_to, Some((5, 6, Direction::Up)));
}

#[test]
fn run_rejects_when_every_held_direction_is_barred() {
    let mut s = state(level_with_walls(&[(6, 5), (5, 6)]), (5, 5), &[]);
    let input = Input { up: true, right: true, ..NONE };
    assert_eq!(PlayerSystem.run(&mut s, input), Outcome::Rejected);
    assert_eq!(s.player, (5, 5));
    assert_eq!(s.movable.moving_to, None);
}

#[test]
fn a_game_starts_where_the_level_says() {
    let level = Level::parse("#####\n#@$.#\n#####").unwrap();
    let s = PlayState::new(level).ok().unwrap();
    assert_eq!(s.player, (8, 7));
    assert_eq!(s.boxes, vec![(9, 7)]);
    assert_eq!(s.movable.moving_to, None);
    assert!(s.level.is_wall(7, 7));
}

#[test]
fn a_game_needs_a_player() {
    assert_eq!(PlayState::new(open_level()).err(), Some(LevelError::NoPlayer));
}

#[test]
fn a_box_is_pushed_onto_the_goal_and_no_further() {
    let level = Level::parse("#####\n#@$.#\n#####").unwrap();
    let mut s = PlayState::new(level).ok().unwrap();
    assert_eq!(PlayerSystem.request(&mut s, Direction::Right), Outcome::Pushed(0));
    assert_eq!(s.player, (9, 7));
    assert_eq!(s.boxes, vec![(10, 7)]);
    let mut position = (8 * TILE_SIZE, 7 * TILE_SIZE);
    MoveSystem.run(&mut s.movable, &mut position, 1000);
    assert_eq!(s.movable.moving_to, None);
    assert_eq!(position, (9 * TILE_SIZE, 7 * TILE_SIZE));
    assert_eq!(PlayerSystem.request(&mut s, Direction::Right), Outcome::Rejected);
    assert_eq!(s.player, (9, 7));
    assert_eq!(s.boxes, vec![(10, 7)]);
}

#[test]
fn to_velocity_points_along_the_direction() {
    assert_eq!(Direction::Up.to_velocity(7), (0, 7));
    assert_eq!(Direction::Down.to_velocity(7), (0, -7));
    assert_eq!(Direction::Left.to_velocity(7), (-7, 0));
    assert_eq!(Direction::Right.to_velocity(7), (7, 0));
    assert_eq!(Direction::Left.to_velocity(-3), (3, 0));
    assert_eq!(Direction::Up.to_velocity(0), (0, 0));
}

#[test]
fn step_from_stays_within_the_arena() {
    assert_eq!(Direction::Up.step_from(3, 4), Some((3, 5)));
    assert_eq!(Direction::Down.step_from(3, 4), Some((3, 3)));
    assert_eq!(Direction::Left.step_from(3, 4), Some((2, 4)));
    assert_eq!(Direction::Right.step_from(3, 4), Some((4, 4)));
    assert_eq!(Direction::Up.step_from(3, 15), None);
    assert_eq!(Direction::Down.step_from(3, 0), None);
    assert_eq!(Direction::Left.step_from(0, 4), None);
    assert_eq!(Direction::Right.step_from(19, 4), None);
    assert_eq!(Direction::Left.step_from(20, 4), Some((19, 4)));
    assert_eq!(Direction::Down.step_from(3, 16), Some((3, 15)));
    assert_eq!(Direction::Up.step_from(20, 4), None);
    assert_eq!(Direction::Right.step_from(usize::MAX, 4), None);
}

#[test]
fn a_resting_actor_stays() {
    let mut movable = Movable { moving_to: None };
    let mut position = (123, -456);
    MoveSystem.run(&mut movable, &mut position, 5000);
    assert_eq!(movable.moving_to, None);
    assert_eq!(position, (123, -456));
}

#[test]
fn a_moving_actor_travels_at_its_speed() {
    assert_eq!(SPEED, 48);
    assert_eq!(TILE_SIZE, 16_000);
    let mut movable = Movable { moving_to: Some((5, 6, Direction::Up)) };
    let mut position = (80_000, 80_000);
    MoveSystem.run(&mut movable, &mut position, 100);
    assert_eq!(position, (80_000, 84_800));
    assert_eq!(movable.moving_to, Some((5, 6, Direction::Up)));
    MoveSystem.run(&mut movable, &mut position, 0);
    assert_eq!(position, (80_000, 84_800));
    assert_eq!(movable.moving_to, Some((5, 6, Direction::Up)));
}

#[test]
fn a_moving_actor_snaps_onto_its_target() {
    let cases = [
        (Direction::Up, (5, 6), (80_000, 96_000)),
        (Direction::Down, (5, 4), (80_000, 64_000)),
        (Direction::Left, (4, 5), (64_000, 80_000)),
        (Direction::Right, (6, 5), (96_000, 80_000)),
    ];
    for (dir, cell, target) in cases {
        let mut movable = Movable { moving_to: Some((cell.0, cell.1, dir)) };
        let mut position = (80_000, 80_000);
        MoveSystem.run(&mut movable, &mut position, 333);
        assert_eq!(movable.moving_to, Some((cell.0, cell.1, dir)));
        assert_ne!(position, target);
        // 333 ms cover 15 984 units, one more millisecond passes the target.
        MoveSystem.run(&mut movable, &mut position, 1);
        assert_eq!(movable.moving_to, None);
        assert_eq!(position, target);
    }
}

#[test]
fn a_move_ends_exactly_on_arrival() {
    let mut movable = Movable { moving_to: Some((1, 0, Direction::Right)) };
    let mut position = (16_000 - 48, 7);
    MoveSystem.run(&mut movable, &mut position, 1);
    assert_eq!(movable.moving_to, None);
    assert_eq!(position, (16_000, 7));
}

#[test]
fn snapping_leaves_the_other_coordinate_alone() {
    let mut movable = Movable { moving_to: Some((2, 3, Direction::Up)) };
    let mut position = (31_990, 40_000);
    MoveSystem.run(&mut movable, &mut position, 1000);
    assert_eq!(movable.moving_to, None);
    assert_eq!(position, (31_990, 48_000));
}
