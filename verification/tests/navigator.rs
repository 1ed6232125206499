use rusty_laby::cell::CellState;
use rusty_laby::direction::{Direction, RelativeMove};
use rusty_laby::map::MazeMap;
use rusty_laby::navigator::{
    expansion_order, explore_next_move, gather_candidates, shows_open, take_move,
    ExplorationDeadEnd, Navigator, NavigatorMode,
};
use rusty_laby::player::Player;
use rusty_laby::radarview::{CellEntity, CellNature, DecodedCell, PrettyRadarView, Wall};
use rusty_laby::search::{first_step, open_neighbor};
use rusty_laby::walls::Walls;

fn empty_cell() -> DecodedCell {
    DecodedCell { nature: CellNature::Empty, entity: CellEntity::Nobody }
}

fn goal_cell() -> DecodedCell {
    DecodedCell { nature: CellNature::Goal, entity: CellEntity::Nobody }
}

/// A snapshot whose walls around the player's cell are as given, and all
/// other walls blocked.
fn view(front: Wall, right: Wall, back: Wall, left: Wall) -> PrettyRadarView {
    let mut h = vec![Wall::Wall; 12];
    let mut v = vec![Wall::Wall; 12];
    h[4] = front;
    v[6] = right;
    h[7] = back;
    v[5] = left;
    PrettyRadarView {
        horizontal_walls: h,
        vertical_walls: v,
        cells: vec![empty_cell(); 9],
        current_cell: 4,
    }
}

fn blank() -> PrettyRadarView {
    PrettyRadarView { horizontal_walls: vec![], vertical_walls: vec![], cells: vec![], current_cell: 4 }
}

type Edge = ((i32, i32), (i32, i32));

fn joined(open: &[Edge], a: (i32, i32), b: (i32, i32)) -> Wall {
    if open.contains(&(a, b)) || open.contains(&(b, a)) {
        Wall::Open
    } else {
        Wall::Wall
    }
}

/// A map of the cells `(0, 0)` to `(2, 2)` in which the given edges are open
/// and all others blocked.
fn maze(open: &[Edge]) -> MazeMap {
    let mut map = MazeMap::new();
    for x in 0..3 {
        for y in 0..3 {
            let walls = Walls {
                north: joined(open, (x, y), (x, y + 1)),
                east: joined(open, (x, y), (x + 1, y)),
                south: joined(open, (x, y), (x, y - 1)),
                west: joined(open, (x, y), (x - 1, y)),
            };
            map.update_cell(x, y, walls, CellState::NotVisited);
        }
    }
    map
}

const ALL_FOUR: [Direction; 4] =
    [Direction::North, Direction::East, Direction::South, Direction::West];

#[test]
fn open_walls_of_a_snapshot() {
    let v = view(Wall::Open, Wall::Wall, Wall::Undefined, Wall::Open);
    assert!(shows_open(&v, RelativeMove::Front));
    assert!(!shows_open(&v, RelativeMove::Right));
    assert!(!shows_open(&v, RelativeMove::Back));
    assert!(shows_open(&v, RelativeMove::Left));
    for m in [RelativeMove::Front, RelativeMove::Right, RelativeMove::Back, RelativeMove::Left] {
        assert!(!shows_open(&blank(), m));
    }
}

#[test]
fn candidates_prefer_cells_not_visited() {
    let mut map = MazeMap::new();
    let player = Player::new(0, 0, Direction::North);
    map.update_cell(1, 0, Walls::default(), CellState::Visited);
    let v = view(Wall::Open, Wall::Open, Wall::Open, Wall::Wall);
    let c = gather_candidates(&map, &player, &v);
    assert_eq!(c.moves, vec![RelativeMove::Front, RelativeMove::Back]);
    assert!(!c.backtrack);
    let free = MazeMap::new();
    let c = gather_candidates(&free, &player, &v);
    assert_eq!(c.moves, vec![RelativeMove::Right, RelativeMove::Front, RelativeMove::Back]);
}

#[test]
fn candidates_follow_the_facing() {
    let mut map = MazeMap::new();
    let player = Player::new(0, 0, Direction::East);
    // Facing East, the cell in front is (1, 0) and the cell to the left (0, 1).
    map.update_cell(1, 0, Walls::default(), CellState::Visited);
    let v = view(Wall::Open, Wall::Wall, Wall::Wall, Wall::Open);
    let c = gather_candidates(&map, &player, &v);
    assert_eq!(c.moves, vec![RelativeMove::Left]);
    assert!(!c.backtrack);
}

#[test]
fn candidates_retrace_when_nothing_is_new() {
    let mut map = MazeMap::new();
    let mut player = Player::new(0, 0, Direction::North);
    player.path.push((0, 1));
    player.directions_path.push(RelativeMove::Left);
    map.update_cell(0, 1, Walls::default(), CellState::Visited);
    let v = view(Wall::Open, Wall::Wall, Wall::Wall, Wall::Wall);
    let c = gather_candidates(&map, &player, &v);
    assert_eq!(c.moves, vec![RelativeMove::Left]);
    assert!(c.backtrack);
}

#[test]
fn candidates_fall_back_to_any_open_wall() {
    let mut map = MazeMap::new();
    let player = Player::new(0, 0, Direction::North);
    map.update_cell(0, 1, Walls::default(), CellState::Visited);
    map.update_cell(0, -1, Walls::default(), CellState::Visited);
    let v = view(Wall::Open, Wall::Wall, Wall::Open, Wall::Wall);
    let c = gather_candidates(&map, &player, &v);
    assert_eq!(c.moves, vec![RelativeMove::Front, RelativeMove::Back]);
    assert!(!c.backtrack);
}

#[test]
fn no_candidates_in_an_enclosed_cell() {
    let map = MazeMap::new();
    let player = Player::new(0, 0, Direction::North);
    let v = view(Wall::Wall, Wall::Wall, Wall::Undefined, Wall::Wall);
    let c = gather_candidates(&map, &player, &v);
    assert!(c.moves.is_empty());
    assert!(!c.backtrack);
    let c = gather_candidates(&map, &player, &blank());
    assert!(c.moves.is_empty());
}

#[test]
fn the_move_drawn_is_recorded() {
    let mut player = Player::new(0, 0, Direction::North);
    assert_eq!(take_move(&mut player, false, Some(RelativeMove::Left)), Ok(RelativeMove::Left));
    assert_eq!(player.directions_path, vec![RelativeMove::Right]);
    assert_eq!(player.path, vec![(0, 0)]);
    assert_eq!(take_move(&mut player, false, Some(RelativeMove::Front)), Ok(RelativeMove::Front));
    assert_eq!(player.directions_path, vec![RelativeMove::Right, RelativeMove::Back]);
    player.path.push((7, 7));
    assert_eq!(take_move(&mut player, true, Some(RelativeMove::Back)), Ok(RelativeMove::Back));
    assert_eq!(player.directions_path, vec![RelativeMove::Right]);
    assert_eq!(player.path, vec![(0, 0)]);
    assert_eq!(take_move(&mut player, true, None), Err(ExplorationDeadEnd));
    assert_eq!(take_move(&mut player, false, None), Err(ExplorationDeadEnd));
    assert_eq!(player.directions_path, vec![RelativeMove::Right]);
    assert_eq!(player.path, vec![(0, 0)]);
}

#[test]
fn exploring_only_proposes_open_walls() {
    let map = MazeMap::new();
    let v = view(Wall::Open, Wall::Wall, Wall::Open, Wall::Undefined);
    let mut seen_front = false;
    let mut seen_back = false;
    for _ in 0..200 {
        let mut player = Player::new(0, 0, Direction::West);
        let m = explore_next_move(&map, &mut player, &v).unwrap();
        assert!(shows_open(&v, m));
        assert!(m == RelativeMove::Front || m == RelativeMove::Back);
        assert_eq!(player.directions_path, vec![m.opposite()]);
        seen_front = seen_front || m == RelativeMove::Front;
        seen_back = seen_back || m == RelativeMove::Back;
    }
    assert!(seen_front && seen_back);
}

#[test]
fn exploring_retraces_the_last_step() {
    let mut map = MazeMap::new();
    let mut player = Player::new(0, 0, Direction::North);
    player.path.push((0, 1));
    player.directions_path.push(RelativeMove::Back);
    player.y = 1;
    map.update_cell(0, 0, Walls::default(), CellState::Visited);
    let v = view(Wall::Wall, Wall::Wall, Wall::Open, Wall::Wall);
    assert_eq!(explore_next_move(&map, &mut player, &v), Ok(RelativeMove::Back));
    assert!(player.directions_path.is_empty());
    assert_eq!(player.path, vec![(0, 0)]);
}

#[test]
fn exploring_an_enclosed_cell_is_a_dead_end() {
    let map = MazeMap::new();
    let mut player = Player::new(0, 0, Direction::North);
    let v = view(Wall::Wall, Wall::Wall, Wall::Wall, Wall::Wall);
    assert_eq!(explore_next_move(&map, &mut player, &v), Err(ExplorationDeadEnd));
    assert_eq!(player.path, vec![(0, 0)]);
    assert!(player.directions_path.is_empty());
}

#[test]
fn neighbours_are_looked_at_in_the_order_of_the_hint() {
    assert_eq!(expansion_order(None), [Direction::North, Direction::East, Direction::South, Direction::West]);
    assert_eq!(expansion_order(Some(0)), [Direction::North, Direction::East, Direction::West, Direction::South]);
    assert_eq!(expansion_order(Some(90)), [Direction::East, Direction::North, Direction::South, Direction::West]);
    assert_eq!(expansion_order(Some(180)), [Direction::South, Direction::East, Direction::West, Direction::North]);
    assert_eq!(expansion_order(Some(270)), [Direction::West, Direction::North, Direction::South, Direction::East]);
    assert_eq!(expansion_order(Some(100)), [Direction::East, Direction::South, Direction::North, Direction::West]);
    assert_eq!(expansion_order(Some(45)), [Direction::North, Direction::East, Direction::South, Direction::West]);
    assert_eq!(expansion_order(Some(315)), [Direction::North, Direction::West, Direction::East, Direction::South]);
    assert_eq!(expansion_order(Some(359)), [Direction::North, Direction::West, Direction::East, Direction::South]);
    assert_eq!(expansion_order(Some(360)), expansion_order(Some(0)));
    assert_eq!(expansion_order(Some(450)), expansion_order(Some(90)));
}

#[test]
fn a_goal_in_sight_makes_the_navigator_seek() {
    let player = Player::new(3, 3, Direction::East);
    let mut v = view(Wall::Open, Wall::Open, Wall::Open, Wall::Open);
    let mut navigator = Navigator::new();
    navigator.observe(&v, &player);
    assert_eq!(navigator.mode, NavigatorMode::Exploring);
    v.cells[2] = goal_cell();
    v.cells[7] = goal_cell();
    navigator.observe(&v, &player);
    // Facing East, cell 2 lies in front and to the right: East and South.
    assert_eq!(navigator.mode, NavigatorMode::Seeking(4, 2));
    v.cells[2] = empty_cell();
    navigator.observe(&v, &player);
    assert_eq!(navigator.mode, NavigatorMode::Seeking(4, 2));
    navigator.observe(&blank(), &player);
    assert_eq!(navigator.mode, NavigatorMode::Seeking(4, 2));
    let mut other = Navigator::new();
    other.set_hint(120);
    other.observe(&blank(), &player);
    assert_eq!(other.mode, NavigatorMode::Exploring);
    assert_eq!(other.hint, Some(120));
}

#[test]
fn edges_need_both_cells_and_no_blocked_reading() {
    let mut map = MazeMap::new();
    let open_north = Walls { north: Wall::Open, ..Walls::default() };
    map.update_cell(0, 0, open_north, CellState::NotVisited);
    assert_eq!(open_neighbor(&map, 0, 0, Direction::North), None);
    map.update_cell(0, 1, Walls::default(), CellState::NotVisited);
    assert_eq!(open_neighbor(&map, 0, 0, Direction::North), Some((0, 1)));
    assert_eq!(open_neighbor(&map, 0, 1, Direction::South), Some((0, 0)));
    assert_eq!(open_neighbor(&map, 0, 0, Direction::East), None);
    map.update_cell(0, 1, Walls { south: Wall::Wall, ..Walls::default() }, CellState::NotVisited);
    assert_eq!(open_neighbor(&map, 0, 0, Direction::North), None);
    assert_eq!(open_neighbor(&map, 0, 1, Direction::South), None);
    map.update_cell(i32::MAX, i32::MAX, open_north, CellState::NotVisited);
    assert_eq!(open_neighbor(&map, i32::MAX, i32::MAX, Direction::North), None);
    assert_eq!(open_neighbor(&map, i32::MAX, i32::MAX, Direction::East), None);
}

const WINDING: [Edge; 8] = [
    ((0, 0), (0, 1)),
    ((0, 1), (1, 1)),
    ((1, 1), (1, 0)),
    ((1, 0), (2, 0)),
    ((2, 0), (2, 1)),
    ((2, 1), (2, 2)),
    ((0, 1), (0, 2)),
    ((0, 2), (1, 2)),
];

#[test]
fn the_first_step_of_the_only_route() {
    let map = maze(&WINDING);
    assert_eq!(first_step(&map, (0, 0), (2, 2), &ALL_FOUR), Some(Direction::North));
    assert_eq!(first_step(&map, (0, 1), (2, 2), &ALL_FOUR), Some(Direction::East));
    assert_eq!(first_step(&map, (1, 1), (2, 2), &ALL_FOUR), Some(Direction::South));
    assert_eq!(first_step(&map, (2, 1), (2, 2), &ALL_FOUR), Some(Direction::North));
    assert_eq!(first_step(&map, (1, 2), (2, 2), &ALL_FOUR), Some(Direction::West));
    assert_eq!(first_step(&map, (2, 2), (2, 2), &ALL_FOUR), None);
    assert_eq!(first_step(&map, (2, 2), (0, 0), &ALL_FOUR), Some(Direction::South));
}

#[test]
fn no_first_step_without_a_route() {
    let map = maze(&[((0, 0), (0, 1)), ((2, 2), (2, 1))]);
    assert_eq!(first_step(&map, (0, 0), (2, 2), &ALL_FOUR), None);
    assert_eq!(first_step(&map, (0, 0), (5, 5), &ALL_FOUR), None);
    assert_eq!(first_step(&map, (5, 5), (0, 0), &ALL_FOUR), None);
    assert_eq!(first_step(&map, (0, 0), (0, 1), &ALL_FOUR), Some(Direction::North));
}

#[test]
fn of_two_shortest_routes_the_preferred_first_step() {
    // Two routes of four steps lead from (0, 0) to (2, 2): one starts
    // northwards, one eastwards.
    let ring = [
        ((0, 0), (0, 1)),
        ((0, 1), (0, 2)),
        ((0, 2), (1, 2)),
        ((1, 2), (2, 2)),
        ((0, 0), (1, 0)),
        ((1, 0), (2, 0)),
        ((2, 0), (2, 1)),
        ((2, 1), (2, 2)),
    ];
    let map = maze(&ring);
    assert_eq!(first_step(&map, (0, 0), (2, 2), &expansion_order(None)), Some(Direction::North));
    assert_eq!(first_step(&map, (0, 0), (2, 2), &expansion_order(Some(0))), Some(Direction::North));
    assert_eq!(first_step(&map, (0, 0), (2, 2), &expansion_order(Some(90))), Some(Direction::East));
    assert_eq!(first_step(&map, (0, 0), (2, 2), &expansion_order(Some(180))), Some(Direction::East));
    assert_eq!(first_step(&map, (0, 0), (2, 2), &expansion_order(Some(270))), Some(Direction::North));
    assert_eq!(first_step(&map, (2, 2), (0, 0), &expansion_order(Some(270))), Some(Direction::West));
    assert_eq!(first_step(&map, (2, 2), (0, 0), &expansion_order(Some(180))), Some(Direction::South));
}

#[test]
fn a_shorter_route_beats_the_preferred_direction() {
    let open = [
        ((0, 0), (1, 0)),
        ((1, 0), (2, 0)),
        ((0, 0), (0, 1)),
        ((0, 1), (1, 1)),
        ((1, 1), (2, 1)),
        ((2, 1), (2, 0)),
    ];
    let map = maze(&open);
    for hint in [None, Some(0), Some(90), Some(180), Some(270)] {
        assert_eq!(first_step(&map, (0, 0), (2, 0), &expansion_order(hint)), Some(Direction::East));
    }
}

#[test]
fn seeking_walks_the_shortest_route_to_the_goal() {
    let mut map = maze(&WINDING);
    let mut player = Player::new(0, 0, Direction::North);
    let navigator = Navigator { mode: NavigatorMode::Seeking(2, 2), hint: None };
    let expected = [(0, 1), (1, 1), (1, 0), (2, 0), (2, 1), (2, 2)];
    for step in expected {
        let m = navigator.decide_next_move(&map, &mut player, &blank()).unwrap();
        map.update_player(&mut player, m.as_str());
        assert_eq!((player.x, player.y), step);
    }
    assert_eq!((player.x, player.y), (2, 2));
    assert_eq!(player.path.len(), 7);
    assert_eq!(player.directions_path.len(), 6);
}

#[test]
fn seeking_from_any_facing_reaches_the_goal() {
    for facing in ALL_FOUR {
        let mut map = maze(&WINDING);
        let mut player = Player::new(1, 2, facing);
        let navigator = Navigator { mode: NavigatorMode::Seeking(2, 2), hint: Some(75) };
        let mut steps = 0;
        while (player.x, player.y) != (2, 2) {
            let m = navigator.decide_next_move(&map, &mut player, &blank()).unwrap();
            map.update_player(&mut player, m.as_str());
            steps += 1;
            assert!(steps <= 7);
        }
        assert_eq!(steps, 7);
    }
}

#[test]
fn seeking_without_a_route_explores() {
    let map = maze(&[((0, 0), (0, 1))]);
    let navigator = Navigator { mode: NavigatorMode::Seeking(2, 2), hint: None };
    let mut player = Player::new(0, 0, Direction::North);
    let v = view(Wall::Wall, Wall::Open, Wall::Wall, Wall::Wall);
    assert_eq!(navigator.decide_next_move(&map, &mut player, &v), Ok(RelativeMove::Right));
    assert_eq!(player.directions_path, vec![RelativeMove::Left]);
    let mut player = Player::new(0, 0, Direction::North);
    assert_eq!(
        navigator.decide_next_move(&map, &mut player, &blank()),
        Err(ExplorationDeadEnd)
    );
}

#[test]
fn deciding_while_exploring_keeps_to_open_walls() {
    let map = MazeMap::new();
    let navigator = Navigator::new();
    let v = view(Wall::Wall, Wall::Wall, Wall::Wall, Wall::Open);
    for facing in ALL_FOUR {
        let mut player = Player::new(-2, 9, facing);
        let m = navigator.decide_next_move(&map, &mut player, &v).unwrap();
        assert_eq!(m, RelativeMove::Left);
        assert!(shows_open(&v, m));
    }
}
