//! A drawing of the map as lines of text.
//!
//! Each cell takes three columns and two rows of the drawing: a row for the
//! wall north of it and a row for the cell itself, a column for the wall
//! west of it and two columns for the cell. One more row closes the drawing
//! at the bottom and one more column at the right. North is up.

use vstd::prelude::*;
use crate::base64::push_char;
use crate::cell::{Cell, CellState};
use crate::map::{cell_at, is_span, Bounds, MazeMap};
use crate::player::Player;
use crate::radarview::Wall;

verus! {

/// The mark of a corner between cells.
pub const CORNER: char = '+';

/// The mark of a blocked wall north or south of a cell.
pub const FLAT_WALL: char = '-';

/// The mark of a blocked wall west of a cell, and of the right-hand border.
pub const UPRIGHT_WALL: char = '|';

/// The mark of nothing: an open or unknown wall, or no cell.
pub const BLANK: char = ' ';

/// The mark of a cell on the player's way.
pub const ON_THE_WAY: char = '🟦';

/// The mark of the player's cell.
pub const PLAYER: char = '🟩';

/// The mark of a visited cell.
pub const VISITED: char = '🟧';

/// The mark of a cell that was discovered and not visited.
pub const NOT_VISITED: char = '⬜';

/// The smallest rectangle that holds every cell of the map, and nothing
/// where the map is empty.
pub open spec fn span_of(cells: Map<(int, int), Cell>) -> Option<Bounds> {
    choose|bounds: Option<Bounds>| is_span(cells, bounds)
}

/// A map has one smallest rectangle only.
pub proof fn lemma_span_unique(cells: Map<(int, int), Cell>, a: Option<Bounds>, b: Option<Bounds>)
    requires
        is_span(cells, a),
        is_span(cells, b),
    ensures
        a == b,
        span_of(cells) == a,
{
    lemma_span_same(cells, a, b);
    lemma_span_same(cells, a, span_of(cells));
}

proof fn lemma_span_same(cells: Map<(int, int), Cell>, a: Option<Bounds>, b: Option<Bounds>)
    requires
        is_span(cells, a),
        is_span(cells, b),
    ensures
        a == b,
{
    match (a, b) {
        (Some(x), Some(y)) => {
            let x0 = choose|p: (int, int)| cells.contains_key(p) && p.0 == x.min_x;
            let x1 = choose|p: (int, int)| cells.contains_key(p) && p.0 == x.max_x;
            let x2 = choose|p: (int, int)| cells.contains_key(p) && p.1 == x.min_y;
            let x3 = choose|p: (int, int)| cells.contains_key(p) && p.1 == x.max_y;
            let y0 = choose|p: (int, int)| cells.contains_key(p) && p.0 == y.min_x;
            let y1 = choose|p: (int, int)| cells.contains_key(p) && p.0 == y.max_x;
            let y2 = choose|p: (int, int)| cells.contains_key(p) && p.1 == y.min_y;
            let y3 = choose|p: (int, int)| cells.contains_key(p) && p.1 == y.max_y;
            assert(y.holds(x0) && y.holds(x1) && y.holds(x2) && y.holds(x3));
            assert(x.holds(y0) && x.holds(y1) && x.holds(y2) && x.holds(y3));
        },
        (Some(x), None) => {
            let x0 = choose|p: (int, int)| cells.contains_key(p) && p.0 == x.min_x;
            assert(cells.contains_key(x0));
        },
        (None, Some(y)) => {
            let y0 = choose|p: (int, int)| cells.contains_key(p) && p.0 == y.min_x;
            assert(cells.contains_key(y0));
        },
        (None, None) => {},
    }
}

/// The number of rows of the drawing of a rectangle.
pub open spec fn drawn_rows(b: Bounds) -> int {
    2 * (b.max_y - b.min_y + 1) + 1
}

/// The number of columns of the drawing of a rectangle.
pub open spec fn drawn_columns(b: Bounds) -> int {
    3 * (b.max_x - b.min_x + 1) + 1
}

/// The mark of a wall that runs from west to east.
pub open spec fn flat_mark(wall: Option<Wall>) -> char {
    if wall == Some(Wall::Wall) {
        FLAT_WALL
    } else {
        BLANK
    }
}

/// The mark of a wall that runs from north to south.
pub open spec fn upright_mark(wall: Option<Wall>) -> char {
    if wall == Some(Wall::Wall) {
        UPRIGHT_WALL
    } else {
        BLANK
    }
}

/// The mark of the cell at `p`: a cell on the way shows the way, the
/// player's cell shows the player, any other cell shows whether it was
/// visited, and where there is no cell there is no mark.
pub open spec fn cell_mark(
    cells: Map<(int, int), Cell>,
    player_position: Option<(i32, i32)>,
    path: Seq<(i32, i32)>,
    p: (int, int),
) -> char {
    if path.contains((p.0 as i32, p.1 as i32)) {
        ON_THE_WAY
    } else if !cells.contains_key(p) {
        BLANK
    } else if player_position == Some((p.0 as i32, p.1 as i32)) {
        PLAYER
    } else if cells[p].state == CellState::Visited {
        VISITED
    } else {
        NOT_VISITED
    }
}

/// The mark in row `row` and column `column` of the drawing.
///
/// Rows with an even number hold walls that run from west to east: the top
/// row the north walls of the topmost cells, every other one the south
/// walls of the cells above it. Rows with an odd number hold the cells and,
/// in every third column, the wall west of each cell; the last column is
/// the right-hand border.
pub open spec fn mark(
    cells: Map<(int, int), Cell>,
    b: Bounds,
    player_position: Option<(i32, i32)>,
    path: Seq<(i32, i32)>,
    row: int,
    column: int,
) -> char {
    let x = b.min_x + column / 3;
    let y = b.max_y - row / 2;
    if row % 2 == 0 && column % 3 == 0 {
        CORNER
    } else if column == drawn_columns(b) - 1 {
        UPRIGHT_WALL
    } else if row % 2 == 0 {
        if row == 0 {
            flat_mark(
                match cell_at(cells, (x, y)) {
                    Some(cell) => Some(cell.walls.north),
                    None => None,
                },
            )
        } else {
            flat_mark(
                match cell_at(cells, (x, y + 1)) {
                    Some(cell) => Some(cell.walls.south),
                    None => None,
                },
            )
        }
    } else if column % 3 == 0 {
        upright_mark(
            match cell_at(cells, (x, y)) {
                Some(cell) => Some(cell.walls.west),
                None => None,
            },
        )
    } else if column % 3 == 1 {
        cell_mark(cells, player_position, path, (x, y))
    } else {
        BLANK
    }
}

/// Row `row` of the drawing.
pub open spec fn drawn_line(
    cells: Map<(int, int), Cell>,
    b: Bounds,
    player_position: Option<(i32, i32)>,
    path: Seq<(i32, i32)>,
    row: int,
) -> Seq<char> {
    Seq::new(
        drawn_columns(b) as nat,
        |column: int| mark(cells, b, player_position, path, row, column),
    )
}

/// Whether `lines` is the drawing of the map: no line for an empty map, and
/// else every row of the smallest rectangle that holds the map.
pub open spec fn draws(
    lines: Seq<String>,
    cells: Map<(int, int), Cell>,
    player_position: Option<(i32, i32)>,
    path: Seq<(i32, i32)>,
) -> bool {
    match span_of(cells) {
        None => lines.len() == 0,
        Some(b) => {
            &&& lines.len() == drawn_rows(b)
            &&& forall|row: int|
                0 <= row < lines.len() ==> (#[trigger] lines[row])@ == drawn_line(
                    cells,
                    b,
                    player_position,
                    path,
                    row,
                )
        },
    }
}

fn on_the_way(path: &Vec<(i32, i32)>, x: i32, y: i32) -> (r: bool)
    ensures
        r == path@.contains((x, y)),
{
    let mut i: usize = 0;
    while i < path.len()
        invariant
            i <= path@.len(),
            forall|j: int| 0 <= j < i ==> path@[j] != (x, y),
        decreases path@.len() - i,
    {
        let (px, py) = path[i];
        if px == x && py == y {
            assert(path@[i as int] == (x, y));
            return true;
        }
        i += 1;
    }
    false
}

impl MazeMap {
    fn mark_at(
        &self,
        b: Bounds,
        player_position: Option<(i32, i32)>,
        player: &Player,
        row: u64,
        column: u64,
    ) -> (r: char)
        requires
            is_span(self@, Some(b)),
            row < drawn_rows(b),
            column < drawn_columns(b),
        ensures
            r == mark(self@, b, player_position, player@.path, row as int, column as int),
    {
        proof {
            self.lemma_domain();
            let corner = choose|p: (int, int)| self@.contains_key(p) && p.0 == b.min_x;
            assert(b.holds(corner));
        }
        let width: u64 = (b.max_x as i64 - b.min_x as i64 + 1) as u64;
        if row % 2 == 0 && column % 3 == 0 {
            return CORNER;
        }
        if column == 3 * width {
            return UPRIGHT_WALL;
        }
        let x: i32 = (b.min_x as i64 + (column / 3) as i64) as i32;
        if row % 2 == 0 {
            let wall = if row == 0 {
                match self.get_cell(x, b.max_y) {
                    Some(cell) => Some(cell.walls.north),
                    None => None,
                }
            } else {
                let above: i32 = (b.max_y as i64 - (row / 2) as i64 + 1) as i32;
                match self.get_cell(x, above) {
                    Some(cell) => Some(cell.walls.south),
                    None => None,
                }
            };
            return match wall {
                Some(Wall::Wall) => FLAT_WALL,
                _ => BLANK,
            };
        }
        let y: i32 = (b.max_y as i64 - (row / 2) as i64) as i32;
        if column % 3 == 0 {
            match self.get_cell(x, y) {
                Some(cell) => match cell.walls.west {
                    Wall::Wall => UPRIGHT_WALL,
                    _ => BLANK,
                },
                None => BLANK,
            }
        } else if column % 3 == 1 {
            if on_the_way(&player.path, x, y) {
                ON_THE_WAY
            } else {
                match self.get_cell(x, y) {
                    None => BLANK,
                    Some(cell) => {
                        let here = match player_position {
                            Some((px, py)) => px == x && py == y,
                            None => false,
                        };
                        if here {
                            PLAYER
                        } else if cell.state == CellState::Visited {
                            VISITED
                        } else {
                            NOT_VISITED
                        }
                    },
                }
            }
        } else {
            BLANK
        }
    }

    /// Draws the map as lines of text, with the player's way and, where a
    /// position is given, the player's cell marked.
    pub fn display_map(&self, player_position: Option<(i32, i32)>, player: &Player) -> (lines: Vec<
        String,
    >)
        ensures
            draws(lines@, self@, player_position, player@.path),
    {
        let mut lines: Vec<String> = Vec::new();
        let bounds = self.bounds();
        proof {
            lemma_span_unique(self@, bounds, bounds);
        }
        let b = match bounds {
            Some(b) => b,
            None => {
                return lines;
            },
        };
        proof {
            self.lemma_domain();
            let corner = choose|p: (int, int)| self@.contains_key(p) && p.0 == b.min_x;
            assert(b.holds(corner));
        }
        let rows: u64 = 2 * ((b.max_y as i64 - b.min_y as i64 + 1) as u64) + 1;
        let columns: u64 = 3 * ((b.max_x as i64 - b.min_x as i64 + 1) as u64) + 1;
        let mut row: u64 = 0;
        while row < rows
            invariant
                row <= rows,
                rows == drawn_rows(b),
                columns == drawn_columns(b),
                is_span(self@, Some(b)),
                lines@.len() == row,
                forall|r: int|
                    0 <= r < row ==> (#[trigger] lines@[r])@ == drawn_line(
                        self@,
                        b,
                        player_position,
                        player@.path,
                        r,
                    ),
            decreases rows - row,
        {
            let mut line = String::new();
            let mut column: u64 = 0;
            while column < columns
                invariant
                    column <= columns,
                    row < rows,
                    rows == drawn_rows(b),
                    columns == drawn_columns(b),
                    is_span(self@, Some(b)),
                    line@.len() == column,
                    forall|c: int|
                        0 <= c < column ==> #[trigger] line@[c] == mark(
                            self@,
                            b,
                            player_position,
                            player@.path,
                            row as int,
                            c,
                        ),
                decreases columns - column,
            {
                let c = self.mark_at(b, player_position, player, row, column);
                push_char(&mut line, c);
                column += 1;
            }
            assert(line@ =~= drawn_line(self@, b, player_position, player@.path, row as int));
            lines.push(line);
            row += 1;
        }
        lines
    }
}

} // verus!
