use rusty_laby::cell::{Cell, CellState};
use rusty_laby::direction::Direction;
use rusty_laby::map::{is_conflict, merge_wall, Bounds, MazeMap};
use rusty_laby::player::Player;
use rusty_laby::radarview::{
    parse_radar_view, CellEntity, CellNature, DecodedCell, PrettyRadarView, Wall,
};
use rusty_laby::walls::Walls;

const STATES: [Wall; 3] = [Wall::Undefined, Wall::Open, Wall::Wall];

fn walls(north: Wall, east: Wall, south: Wall, west: Wall) -> Walls {
    Walls { north, east, south, west }
}

fn empty_cell() -> DecodedCell {
    DecodedCell { nature: CellNature::Empty, entity: CellEntity::Nobody }
}

fn outside() -> DecodedCell {
    DecodedCell { nature: CellNature::Invalid, entity: CellEntity::Nobody }
}

/// A snapshot in which wall `i` of the horizontal walls and wall `j` of the
/// vertical walls are the only open ones, and all others are blocked.
fn view_with(open_h: &[usize], open_v: &[usize], cells: Vec<DecodedCell>) -> PrettyRadarView {
    let mut h = vec![Wall::Wall; 12];
    let mut v = vec![Wall::Wall; 12];
    for &i in open_h {
        h[i] = Wall::Open;
    }
    for &j in open_v {
        v[j] = Wall::Open;
    }
    PrettyRadarView { horizontal_walls: h, vertical_walls: v, cells, current_cell: 4 }
}

#[test]
fn merge_table() {
    assert_eq!(merge_wall(Wall::Undefined, Wall::Undefined), Wall::Undefined);
    assert_eq!(merge_wall(Wall::Undefined, Wall::Open), Wall::Open);
    assert_eq!(merge_wall(Wall::Undefined, Wall::Wall), Wall::Wall);
    assert_eq!(merge_wall(Wall::Open, Wall::Undefined), Wall::Open);
    assert_eq!(merge_wall(Wall::Open, Wall::Open), Wall::Open);
    assert_eq!(merge_wall(Wall::Open, Wall::Wall), Wall::Wall);
    assert_eq!(merge_wall(Wall::Wall, Wall::Undefined), Wall::Wall);
    assert_eq!(merge_wall(Wall::Wall, Wall::Open), Wall::Wall);
    assert_eq!(merge_wall(Wall::Wall, Wall::Wall), Wall::Wall);
}

#[test]
fn merge_does_not_depend_on_the_order() {
    for a in STATES {
        assert_eq!(merge_wall(Wall::Undefined, a), a);
        for b in STATES {
            assert_eq!(merge_wall(a, b), merge_wall(b, a));
            for c in STATES {
                assert_eq!(merge_wall(merge_wall(a, b), c), merge_wall(a, merge_wall(b, c)));
            }
        }
    }
    for _ in 0..5 {
        assert_eq!(merge_wall(Wall::Open, Wall::Wall), Wall::Wall);
    }
}

#[test]
fn conflicts_are_open_against_blocked() {
    for a in STATES {
        for b in STATES {
            let expected = (a == Wall::Open && b == Wall::Wall) || (a == Wall::Wall && b == Wall::Open);
            assert_eq!(is_conflict(a, b), expected);
        }
    }
}

#[test]
fn a_new_map_is_empty() {
    let map = MazeMap::new();
    assert!(map.get_cell(0, 0).is_none());
    assert!(!map.cell_exists(0, 0));
    assert!(!map.cell_exists(i32::MIN, i32::MAX));
}

#[test]
fn update_cell_creates_and_merges() {
    let mut map = MazeMap::new();
    map.update_cell(2, -3, walls(Wall::Open, Wall::Undefined, Wall::Wall, Wall::Undefined), CellState::NotVisited);
    assert!(map.cell_exists(2, -3));
    assert!(!map.cell_exists(-3, 2));
    assert_eq!(
        map.get_cell(2, -3),
        Some(&Cell {
            walls: walls(Wall::Open, Wall::Undefined, Wall::Wall, Wall::Undefined),
            state: CellState::NotVisited
        })
    );
    map.update_cell(2, -3, walls(Wall::Wall, Wall::Open, Wall::Open, Wall::Undefined), CellState::Visited);
    assert_eq!(
        map.get_cell(2, -3),
        Some(&Cell {
            walls: walls(Wall::Wall, Wall::Open, Wall::Wall, Wall::Undefined),
            state: CellState::Visited
        })
    );
}

#[test]
fn a_visited_cell_stays_visited() {
    let mut map = MazeMap::new();
    map.update_cell(0, 0, Walls::default(), CellState::Visited);
    for _ in 0..3 {
        map.update_cell(0, 0, Walls::default(), CellState::NotVisited);
        assert_eq!(map.get_cell(0, 0).unwrap().state, CellState::Visited);
    }
    let mut player = Player::new(1, 0, Direction::West);
    let view = view_with(&[4], &[], vec![empty_cell(); 9]);
    map.update_from_radar(&view, &mut player);
    assert_eq!(map.get_cell(0, 0).unwrap().state, CellState::Visited);
    assert_eq!(map.get_cell(1, 0).unwrap().state, CellState::Visited);
    player = Player::new(0, 1, Direction::North);
    map.update_from_radar(&view, &mut player);
    assert_eq!(map.get_cell(0, 0).unwrap().state, CellState::Visited);
    assert_eq!(map.get_cell(1, 0).unwrap().state, CellState::Visited);
    assert_eq!(map.get_cell(1, 1).unwrap().state, CellState::NotVisited);
}

#[test]
fn cells_on_the_far_corners_of_the_grid() {
    let mut map = MazeMap::new();
    map.update_cell(i32::MIN, i32::MIN, Walls::default(), CellState::Visited);
    map.update_cell(i32::MAX, i32::MAX, Walls::default(), CellState::NotVisited);
    map.update_cell(i32::MIN, i32::MAX, Walls::default(), CellState::NotVisited);
    map.update_cell(-1, 0, Walls::default(), CellState::Visited);
    assert_eq!(map.get_cell(i32::MIN, i32::MIN).unwrap().state, CellState::Visited);
    assert_eq!(map.get_cell(i32::MAX, i32::MAX).unwrap().state, CellState::NotVisited);
    assert!(map.cell_exists(i32::MIN, i32::MAX));
    assert!(!map.cell_exists(i32::MAX, i32::MIN));
    assert!(!map.cell_exists(0, -1));
    assert!(map.cell_exists(-1, 0));
}

#[test]
fn offsets_of_the_snapshot_cells() {
    let north = [(-1, 1), (0, 1), (1, 1), (-1, 0), (0, 0), (1, 0), (-1, -1), (0, -1), (1, -1)];
    let east = [(1, 1), (1, 0), (1, -1), (0, 1), (0, 0), (0, -1), (-1, 1), (-1, 0), (-1, -1)];
    let south = [(1, -1), (0, -1), (-1, -1), (1, 0), (0, 0), (-1, 0), (1, 1), (0, 1), (-1, 1)];
    let west = [(-1, -1), (-1, 0), (-1, 1), (0, -1), (0, 0), (0, 1), (1, -1), (1, 0), (1, 1)];
    for i in 0..9 {
        assert_eq!(MazeMap::radarview_offset_to_map_north(0, 0, i, Direction::North), north[i]);
        assert_eq!(MazeMap::radarview_offset_to_map_north(0, 0, i, Direction::East), east[i]);
        assert_eq!(MazeMap::radarview_offset_to_map_north(0, 0, i, Direction::South), south[i]);
        assert_eq!(MazeMap::radarview_offset_to_map_north(0, 0, i, Direction::West), west[i]);
    }
    assert_eq!(MazeMap::radarview_offset_to_map_north(10, -20, 2, Direction::North), (11, -19));
}

#[test]
fn the_snapshot_is_laid_out_as_the_moves_are() {
    for d in [Direction::North, Direction::East, Direction::South, Direction::West] {
        assert_eq!(MazeMap::radarview_offset_to_map_north(4, 7, 1, d), d.new_position(4, 7, "Front"));
        assert_eq!(MazeMap::radarview_offset_to_map_north(4, 7, 5, d), d.new_position(4, 7, "Right"));
        assert_eq!(MazeMap::radarview_offset_to_map_north(4, 7, 7, d), d.new_position(4, 7, "Back"));
        assert_eq!(MazeMap::radarview_offset_to_map_north(4, 7, 3, d), d.new_position(4, 7, "Left"));
        assert_eq!(MazeMap::radarview_offset_to_map_north(4, 7, 4, d), (4, 7));
    }
}

#[test]
fn radar_update_facing_north() {
    let mut map = MazeMap::new();
    let mut player = Player::new(0, 0, Direction::North);
    let mut cells = vec![outside(); 9];
    cells[4] = empty_cell();
    cells[1] = empty_cell();
    let mut view = view_with(&[4], &[], cells);
    view.horizontal_walls[1] = Wall::Undefined;
    view.vertical_walls[1] = Wall::Undefined;
    view.vertical_walls[2] = Wall::Open;
    map.update_from_radar(&view, &mut player);
    assert_eq!(
        map.get_cell(0, 0),
        Some(&Cell { walls: walls(Wall::Open, Wall::Wall, Wall::Wall, Wall::Wall), state: CellState::Visited })
    );
    assert_eq!(
        map.get_cell(0, 1),
        Some(&Cell {
            walls: walls(Wall::Undefined, Wall::Open, Wall::Open, Wall::Undefined),
            state: CellState::NotVisited
        })
    );
    for (x, y) in [(-1, 1), (1, 1), (-1, 0), (1, 0), (-1, -1), (0, -1), (1, -1)] {
        assert!(!map.cell_exists(x, y));
    }
    assert_eq!((player.x, player.y, player.direction), (0, 0, Direction::North));
    assert_eq!(player.path, vec![(0, 0)]);
}

#[test]
fn radar_update_facing_east() {
    let mut map = MazeMap::new();
    let mut player = Player::new(5, 5, Direction::East);
    let mut cells = vec![outside(); 9];
    cells[4] = empty_cell();
    cells[5] = empty_cell();
    // Front is blocked, right is open, back is undefined, left is open.
    let mut view = view_with(&[], &[5, 6], cells);
    view.horizontal_walls[7] = Wall::Undefined;
    map.update_from_radar(&view, &mut player);
    // Facing East: front is East, right is South, back is West, left is North.
    assert_eq!(
        map.get_cell(5, 5),
        Some(&Cell { walls: walls(Wall::Open, Wall::Wall, Wall::Open, Wall::Undefined), state: CellState::Visited })
    );
    // Cell 5 lies to the right of the player, which is South of it.
    assert!(map.cell_exists(5, 4));
    assert_eq!(map.get_cell(5, 4).unwrap().walls.north, Wall::Open);
    assert_eq!(map.get_cell(5, 4).unwrap().state, CellState::NotVisited);
    assert!(!map.cell_exists(6, 5));
    assert!(!map.cell_exists(5, 6));
}

#[test]
fn radar_update_merges_with_what_is_known() {
    let mut map = MazeMap::new();
    let mut player = Player::new(0, 0, Direction::North);
    map.update_cell(0, 0, walls(Wall::Wall, Wall::Undefined, Wall::Open, Wall::Open), CellState::NotVisited);
    let view = view_with(&[4, 7], &[6], vec![outside(); 9]);
    map.update_from_radar(&view, &mut player);
    assert_eq!(
        map.get_cell(0, 0),
        Some(&Cell { walls: walls(Wall::Wall, Wall::Open, Wall::Open, Wall::Wall), state: CellState::Visited })
    );
}

#[test]
fn the_players_cell_is_kept_even_outside_the_maze() {
    let mut map = MazeMap::new();
    let mut player = Player::new(0, 0, Direction::South);
    let view = view_with(&[], &[], vec![outside(); 9]);
    map.update_from_radar(&view, &mut player);
    assert_eq!(map.get_cell(0, 0).unwrap().state, CellState::Visited);
    assert!(!map.cell_exists(0, 1));
    assert!(!map.cell_exists(0, -1));
}

#[test]
fn a_snapshot_that_is_not_complete_changes_nothing() {
    let mut map = MazeMap::new();
    let mut player = Player::new(0, 0, Direction::North);
    let blank = PrettyRadarView {
        horizontal_walls: vec![],
        vertical_walls: vec![],
        cells: vec![],
        current_cell: 4,
    };
    map.update_from_radar(&blank, &mut player);
    assert!(!map.cell_exists(0, 0));
    let short = PrettyRadarView {
        horizontal_walls: vec![Wall::Open; 12],
        vertical_walls: vec![Wall::Open; 12],
        cells: vec![empty_cell(); 8],
        current_cell: 4,
    };
    map.update_from_radar(&short, &mut player);
    assert!(!map.cell_exists(0, 0));
    let long = PrettyRadarView {
        horizontal_walls: vec![Wall::Open; 13],
        vertical_walls: vec![Wall::Open; 12],
        cells: vec![empty_cell(); 9],
        current_cell: 4,
    };
    map.update_from_radar(&long, &mut player);
    assert!(!map.cell_exists(0, 0));
}

#[test]
fn radar_update_from_a_decoded_text() {
    let mut map = MazeMap::new();
    let mut player = Player::new(0, 0, Direction::North);
    let view = parse_radar_view("rAeaksua//8a8aa").unwrap();
    map.update_from_radar(&view, &mut player);
    assert_eq!(
        map.get_cell(0, 0),
        Some(&Cell { walls: walls(Wall::Wall, Wall::Open, Wall::Open, Wall::Wall), state: CellState::Visited })
    );
    assert!(map.cell_exists(1, 0));
    assert!(map.cell_exists(0, -1));
    assert!(map.cell_exists(1, -1));
    assert!(!map.cell_exists(-1, 0));
    assert!(!map.cell_exists(0, 1));
    assert!(!map.cell_exists(-1, -1));
}

#[test]
fn visited_neighbours() {
    let mut map = MazeMap::new();
    map.update_cell(0, 1, Walls::default(), CellState::Visited);
    map.update_cell(1, 0, Walls::default(), CellState::NotVisited);
    let player = Player::new(0, 0, Direction::North);
    assert!(map.is_cell_visited(player.clone(), Direction::North));
    assert!(!map.is_cell_visited(player.clone(), Direction::East));
    assert!(!map.is_cell_visited(player.clone(), Direction::South));
    assert!(!map.is_cell_visited(player.clone(), Direction::West));
}

#[test]
fn a_move_to_a_new_cell_extends_the_way() {
    let mut map = MazeMap::new();
    let mut player = Player::new(0, 0, Direction::North);
    map.update_player(&mut player, "Right");
    assert_eq!((player.x, player.y, player.direction), (1, 0, Direction::East));
    assert_eq!(player.path, vec![(0, 0), (1, 0)]);
    map.update_player(&mut player, "Left");
    assert_eq!((player.x, player.y, player.direction), (1, 1, Direction::North));
    assert_eq!(player.path, vec![(0, 0), (1, 0), (1, 1)]);
    map.update_player(&mut player, "Front");
    assert_eq!((player.x, player.y, player.direction), (1, 2, Direction::North));
    map.update_player(&mut player, "Back");
    assert_eq!((player.x, player.y, player.direction), (1, 1, Direction::South));
    assert!(!map.cell_exists(1, 1));
}

#[test]
fn a_move_onto_the_way_cuts_it_back() {
    use_revisit(4, 2);
    use_revisit(4, 0);
    use_revisit(4, 3);
}

fn use_revisit(extra: usize, back_to: usize) {
    let mut map = MazeMap::new();
    // The way goes east from (0, 0); the player then stands one cell north
    // of position `back_to` of the way and moves south onto it.
    let mut player = Player::new(0, 0, Direction::East);
    for _ in 0..extra {
        player.directions_path.push(rusty_laby::direction::RelativeMove::Back);
        map.update_player(&mut player, "Front");
    }
    assert_eq!(player.path.len(), extra + 1);
    player.x = back_to as i32;
    player.y = 1;
    player.direction = Direction::South;
    player.directions_path.push(rusty_laby::direction::RelativeMove::Back);
    map.update_player(&mut player, "Front");
    assert_eq!((player.x, player.y), (back_to as i32, 0));
    assert_eq!(player.path.len(), back_to + 1);
    assert_eq!(player.path.last(), Some(&(back_to as i32, 0)));
    assert_eq!(player.path.iter().filter(|p| **p == (back_to as i32, 0)).count(), 1);
    assert_eq!(player.directions_path.len(), player.path.len() - 1);
}

#[test]
fn an_unknown_move_leaves_the_player_in_place() {
    let mut map = MazeMap::new();
    let mut player = Player::new(3, 3, Direction::West);
    map.update_player(&mut player, "Jump");
    assert_eq!((player.x, player.y, player.direction), (3, 3, Direction::West));
    assert_eq!(player.path, vec![(3, 3)]);
}

#[test]
fn the_bounds_of_the_map() {
    let mut map = MazeMap::new();
    assert_eq!(map.bounds(), None);
    map.update_cell(3, -2, Walls::default(), CellState::NotVisited);
    assert_eq!(map.bounds(), Some(Bounds { min_x: 3, max_x: 3, min_y: -2, max_y: -2 }));
    map.update_cell(-1, 4, Walls::default(), CellState::NotVisited);
    map.update_cell(0, 0, Walls::default(), CellState::NotVisited);
    map.update_cell(0, -7, Walls::default(), CellState::Visited);
    assert_eq!(map.bounds(), Some(Bounds { min_x: -1, max_x: 3, min_y: -7, max_y: 4 }));
    map.update_cell(i32::MIN, i32::MAX, Walls::default(), CellState::NotVisited);
    assert_eq!(
        map.bounds(),
        Some(Bounds { min_x: i32::MIN, max_x: 3, min_y: -7, max_y: i32::MAX })
    );
}

#[test]
fn the_map_as_text() {
    let mut map = MazeMap::new();
    let player = Player::new(0, 0, Direction::North);
    assert!(map.display_map(Some((0, 0)), &player).is_empty());
    map.update_cell(0, 0, walls(Wall::Wall, Wall::Open, Wall::Wall, Wall::Wall), CellState::Visited);
    map.update_cell(1, 0, walls(Wall::Open, Wall::Wall, Wall::Undefined, Wall::Open), CellState::NotVisited);
    assert_eq!(
        map.display_map(Some((0, 0)), &player),
        vec!["+--+  +", "|🟦  ⬜ |", "+--+  +"]
    );
    let mut nowhere = Player::new(0, 0, Direction::North);
    nowhere.path.clear();
    assert_eq!(
        map.display_map(Some((1, 0)), &nowhere),
        vec!["+--+  +", "|🟧  🟩 |", "+--+  +"]
    );
    assert_eq!(map.display_map(None, &nowhere), vec!["+--+  +", "|🟧  ⬜ |", "+--+  +"]);
    // A cell two rows up: the row between has no cells.
    map.update_cell(1, 2, walls(Wall::Wall, Wall::Wall, Wall::Wall, Wall::Wall), CellState::NotVisited);
    assert_eq!(
        map.display_map(None, &nowhere),
        vec![
            "+  +--+",
            "   |⬜ |",
            "+  +--+",
            "      |",
            "+  +  +",
            "|🟧  ⬜ |",
            "+--+  +",
        ]
    );
}

#[test]
fn readings_that_contradict_the_map_are_counted() {
    let mut map = MazeMap::new();
    let mut player = Player::new(0, 0, Direction::North);
    let mut cells = vec![outside(); 9];
    cells[4] = empty_cell();
    cells[1] = empty_cell();
    // Front open, all other walls blocked.
    let first = view_with(&[4], &[], cells.clone());
    assert_eq!(map.count_conflicts(&first, &player), 0);
    map.update_from_radar(&first, &mut player);
    assert_eq!(map.count_conflicts(&first, &player), 0);
    // Now the front reads blocked and the right open: two contradictions at
    // the player's cell, and one at the cell in front, whose wall towards
    // the player was open.
    let second = view_with(&[], &[6], cells.clone());
    assert_eq!(map.count_conflicts(&second, &player), 3);
    map.update_from_radar(&second, &mut player);
    let here = map.get_cell(0, 0).unwrap();
    assert_eq!(here.walls.north, Wall::Wall);
    assert_eq!(here.walls.east, Wall::Wall);
    assert_eq!(map.get_cell(0, 1).unwrap().walls.south, Wall::Wall);
    // Undefined readings contradict nothing.
    let mut third = view_with(&[], &[], cells);
    third.horizontal_walls = vec![Wall::Undefined; 12];
    third.vertical_walls = vec![Wall::Undefined; 12];
    assert_eq!(map.count_conflicts(&third, &player), 0);
    let blank = PrettyRadarView {
        horizontal_walls: vec![],
        vertical_walls: vec![],
        cells: vec![],
        current_cell: 4,
    };
    assert_eq!(map.count_conflicts(&blank, &player), 0);
}
