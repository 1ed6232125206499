use rusty_laby::base64::encode;
use rusty_laby::cell::CellState;
use rusty_laby::direction::{Direction, RelativeMove};
use rusty_laby::navigator::NavigatorMode;
use rusty_laby::radarview::{DecodeError, Wall};
use rusty_laby::session::{Reply, ServerEvent, Session};

fn bits(w: Wall) -> u32 {
    match w {
        Wall::Undefined => 0,
        Wall::Open => 1,
        Wall::Wall => 2,
    }
}

fn pack_walls(walls: &[Wall; 12]) -> [u8; 3] {
    let mut word: u32 = 0;
    for w in walls {
        word = (word << 2) | bits(*w);
    }
    [word as u8, (word >> 8) as u8, (word >> 16) as u8]
}

/// The text of a snapshot whose walls around the player's cell are as given
/// and all other walls blocked, with the given cell readings.
fn radar_text(front: Wall, right: Wall, back: Wall, left: Wall, cells: [u8; 9]) -> String {
    let mut h = [Wall::Wall; 12];
    let mut v = [Wall::Wall; 12];
    h[4] = front;
    v[6] = right;
    h[7] = back;
    v[5] = left;
    let mut bytes: Vec<u8> = Vec::new();
    bytes.extend_from_slice(&pack_walls(&h));
    bytes.extend_from_slice(&pack_walls(&v));
    for pair in 0..5 {
        let high = cells[2 * pair];
        let low = if 2 * pair + 1 < 9 { cells[2 * pair + 1] } else { 0 };
        bytes.push(high << 4 | low);
    }
    encode(&bytes)
}

const OUT: u8 = 0xF;
const EMPTY: u8 = 0x0;
const GOAL: u8 = 0x8;

#[test]
fn a_new_session() {
    let session = Session::new();
    assert_eq!((session.player.x, session.player.y), (0, 0));
    assert_eq!(session.player.direction, Direction::North);
    assert_eq!(session.player.path, vec![(0, 0)]);
    assert!(session.player.directions_path.is_empty());
    assert_eq!(session.navigator.mode, NavigatorMode::Exploring);
    assert_eq!(session.navigator.hint, None);
    assert!(!session.in_flight);
    assert!(session.can_go_on());
    assert!(!session.map.cell_exists(0, 0));
}

#[test]
fn a_radar_text_leads_to_a_move() {
    let mut session = Session::new();
    let text = radar_text(
        Wall::Open,
        Wall::Wall,
        Wall::Wall,
        Wall::Wall,
        [OUT, EMPTY, OUT, OUT, EMPTY, OUT, OUT, OUT, OUT],
    );
    assert_eq!(session.on_radar_view(&text), Reply::MoveTo(RelativeMove::Front));
    assert_eq!((session.player.x, session.player.y), (0, 1));
    assert_eq!(session.player.direction, Direction::North);
    assert_eq!(session.player.path, vec![(0, 0), (0, 1)]);
    assert_eq!(session.player.directions_path, vec![RelativeMove::Back]);
    assert!(session.in_flight);
    assert_eq!(session.map.get_cell(0, 0).unwrap().state, CellState::Visited);
    assert_eq!(session.map.get_cell(0, 0).unwrap().walls.north, Wall::Open);
    assert_eq!(session.map.get_cell(0, 1).unwrap().state, CellState::NotVisited);
    assert_eq!(session.view.horizontal_walls[4], Wall::Open);
    assert_eq!((session.before_move.x, session.before_move.y), (0, 0));
}

#[test]
fn a_move_into_a_wall_is_undone() {
    let mut session = Session::new();
    let text = radar_text(
        Wall::Wall,
        Wall::Open,
        Wall::Wall,
        Wall::Wall,
        [OUT, OUT, OUT, OUT, EMPTY, EMPTY, OUT, OUT, OUT],
    );
    assert_eq!(session.on_radar_view(&text), Reply::MoveTo(RelativeMove::Right));
    assert_eq!((session.player.x, session.player.y), (1, 0));
    assert_eq!(session.player.direction, Direction::East);
    assert_eq!(session.on_action_error("CannotPassThroughWall"), Reply::Wait);
    assert_eq!((session.player.x, session.player.y), (0, 0));
    assert_eq!(session.player.direction, Direction::North);
    assert_eq!(session.player.path, vec![(0, 0)]);
    assert!(session.player.directions_path.is_empty());
    assert!(!session.in_flight);
    assert!(session.map.cell_exists(1, 0));
    // A second refusal finds nothing left to undo.
    assert_eq!(session.on_action_error("CannotPassThroughWall"), Reply::Wait);
    assert_eq!((session.player.x, session.player.y), (0, 0));
    assert_eq!(session.retry(), Reply::MoveTo(RelativeMove::Right));
    assert_eq!((session.player.x, session.player.y), (1, 0));
    assert!(session.in_flight);
}

#[test]
fn any_other_refusal_ends_the_session() {
    let mut session = Session::new();
    let text = radar_text(
        Wall::Open,
        Wall::Wall,
        Wall::Wall,
        Wall::Wall,
        [OUT, EMPTY, OUT, OUT, EMPTY, OUT, OUT, OUT, OUT],
    );
    assert_eq!(session.on_radar_view(&text), Reply::MoveTo(RelativeMove::Front));
    assert_eq!(session.on_action_error("NoRunningChallenge"), Reply::Aborted);
    assert_eq!((session.player.x, session.player.y), (0, 1));
    assert!(session.in_flight);
    assert_eq!(session.on_action_error(""), Reply::Aborted);
}

#[test]
fn a_text_that_cannot_be_decoded_is_dropped() {
    let mut session = Session::new();
    assert_eq!(session.on_radar_view("ab*d"), Reply::Unreadable(DecodeError::InvalidByte));
    assert_eq!(session.on_radar_view("aaaa"), Reply::Unreadable(DecodeError::LengthMismatch(3)));
    assert!(!session.map.cell_exists(0, 0));
    assert_eq!(session.player.path, vec![(0, 0)]);
    assert!(!session.in_flight);
    assert!(session.view.cells.is_empty());
}

#[test]
fn the_session_ends_on_the_goal() {
    let mut session = Session::new();
    let text = radar_text(
        Wall::Open,
        Wall::Open,
        Wall::Open,
        Wall::Open,
        [EMPTY, EMPTY, EMPTY, EMPTY, GOAL, EMPTY, EMPTY, EMPTY, EMPTY],
    );
    assert_eq!(session.on_radar_view(&text), Reply::GoalReached);
    assert_eq!((session.player.x, session.player.y), (0, 0));
    assert_eq!(session.player.path, vec![(0, 0)]);
    assert!(session.map.cell_exists(0, 0));
    assert!(!session.in_flight);
}

#[test]
fn a_goal_in_sight_is_headed_for() {
    let mut session = Session::new();
    // The goal lies to the right; in front lies a cell that was not visited
    // either. An exploring player would take either move.
    let text = radar_text(
        Wall::Open,
        Wall::Open,
        Wall::Wall,
        Wall::Wall,
        [OUT, EMPTY, OUT, OUT, EMPTY, GOAL, OUT, OUT, OUT],
    );
    assert_eq!(session.on_radar_view(&text), Reply::MoveTo(RelativeMove::Right));
    assert_eq!(session.navigator.mode, NavigatorMode::Seeking(1, 0));
    assert_eq!((session.player.x, session.player.y), (1, 0));
    assert_eq!(session.player.direction, Direction::East);
    assert_eq!(session.player.directions_path, vec![RelativeMove::Left]);
}

#[test]
fn an_enclosed_player_is_at_a_dead_end() {
    let mut session = Session::new();
    let text = radar_text(
        Wall::Wall,
        Wall::Wall,
        Wall::Wall,
        Wall::Wall,
        [OUT, OUT, OUT, OUT, EMPTY, OUT, OUT, OUT, OUT],
    );
    assert_eq!(session.on_radar_view(&text), Reply::DeadEnd);
    assert_eq!(session.player.path, vec![(0, 0)]);
    assert!(!session.in_flight);
    assert_eq!(session.map.get_cell(0, 0).unwrap().state, CellState::Visited);
}

#[test]
fn events_are_told_apart() {
    let mut session = Session::new();
    assert_eq!(session.handle(&ServerEvent::Other), Reply::Unhandled);
    assert_eq!(
        session.handle(&ServerEvent::ActionError(String::from("CannotPassThroughWall"))),
        Reply::Wait
    );
    assert_eq!(
        session.handle(&ServerEvent::ActionError(String::from("InvalidMove"))),
        Reply::Aborted
    );
    assert_eq!(
        session.handle(&ServerEvent::RadarView(String::from("?"))),
        Reply::Unreadable(DecodeError::InvalidByte)
    );
    let text = radar_text(
        Wall::Wall,
        Wall::Wall,
        Wall::Open,
        Wall::Wall,
        [OUT, OUT, OUT, OUT, EMPTY, OUT, OUT, EMPTY, OUT],
    );
    assert_eq!(session.handle(&ServerEvent::RadarView(text)), Reply::MoveTo(RelativeMove::Back));
    assert_eq!((session.player.x, session.player.y), (0, -1));
    assert_eq!(session.player.direction, Direction::South);
}

#[test]
fn exploring_a_corridor_and_back() {
    let mut session = Session::new();
    let ahead = radar_text(
        Wall::Open,
        Wall::Wall,
        Wall::Wall,
        Wall::Wall,
        [OUT, EMPTY, OUT, OUT, EMPTY, OUT, OUT, OUT, OUT],
    );
    assert_eq!(session.on_radar_view(&ahead), Reply::MoveTo(RelativeMove::Front));
    // The end of the corridor: only the way back is open.
    let end = radar_text(
        Wall::Wall,
        Wall::Wall,
        Wall::Open,
        Wall::Wall,
        [OUT, OUT, OUT, OUT, EMPTY, OUT, OUT, EMPTY, OUT],
    );
    assert_eq!(session.on_radar_view(&end), Reply::MoveTo(RelativeMove::Back));
    assert_eq!((session.player.x, session.player.y), (0, 0));
    assert_eq!(session.player.direction, Direction::South);
    assert_eq!(session.player.path, vec![(0, 0)]);
    assert!(session.player.directions_path.is_empty());
    assert_eq!(session.map.get_cell(0, 1).unwrap().state, CellState::Visited);
}

#[test]
fn contradictions_are_reported() {
    let mut session = Session::new();
    let first = radar_text(
        Wall::Open,
        Wall::Wall,
        Wall::Wall,
        Wall::Wall,
        [OUT, EMPTY, OUT, OUT, EMPTY, OUT, OUT, OUT, OUT],
    );
    assert_eq!(session.on_radar_view(&first), Reply::MoveTo(RelativeMove::Front));
    assert_eq!(session.conflicts, 0);
    assert_eq!(session.on_action_error("CannotPassThroughWall"), Reply::Wait);
    // The same cell again, with the front wall now blocked and the back open.
    let second = radar_text(
        Wall::Wall,
        Wall::Wall,
        Wall::Open,
        Wall::Wall,
        [OUT, OUT, OUT, OUT, EMPTY, OUT, OUT, EMPTY, OUT],
    );
    assert_eq!(session.on_radar_view(&second), Reply::MoveTo(RelativeMove::Back));
    assert_eq!(session.conflicts, 2);
    assert_eq!(session.map.get_cell(0, 0).unwrap().walls.north, Wall::Wall);
    assert_eq!(session.map.get_cell(0, 0).unwrap().walls.south, Wall::Wall);
}
