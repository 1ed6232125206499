//! Plain-text renderings of a snapshot, for logs and for debugging.

use vstd::prelude::*;
use vstd::string::*;
use crate::radarview::{CellEntity, CellNature, DecodedCell, PrettyRadarView, Wall};

verus! {

/// How a horizontal wall is drawn, together with the corner right of it.
pub open spec fn horizontal_glyph(w: Wall) -> Seq<char> {
    match w {
        Wall::Undefined => "##"@,
        Wall::Open => " •"@,
        Wall::Wall => "-•"@,
    }
}

/// How a vertical wall is drawn.
pub open spec fn vertical_glyph(w: Wall) -> Seq<char> {
    match w {
        Wall::Undefined => "##"@,
        Wall::Open => " "@,
        Wall::Wall => "|"@,
    }
}

/// Row `row` of the horizontal walls of a snapshot, as a line of text.
pub open spec fn horizontal_line(prv: &PrettyRadarView, row: int) -> Seq<char> {
    horizontal_glyph(prv.horizontal_walls@[3 * row]) + horizontal_glyph(
        prv.horizontal_walls@[3 * row + 1],
    ) + horizontal_glyph(prv.horizontal_walls@[3 * row + 2]) + "\n"@
}

/// Row `row` of the vertical walls of a snapshot, as a line of text.
pub open spec fn vertical_line(prv: &PrettyRadarView, row: int) -> Seq<char> {
    vertical_glyph(prv.vertical_walls@[4 * row]) + vertical_glyph(prv.vertical_walls@[4 * row + 1])
        + vertical_glyph(prv.vertical_walls@[4 * row + 2]) + vertical_glyph(
        prv.vertical_walls@[4 * row + 3],
    ) + "\n"@
}

/// The walls of a snapshot as seven lines of text: the four rows of
/// horizontal walls with the three rows of vertical walls between them.
pub open spec fn radar_ascii(prv: &PrettyRadarView) -> Seq<char> {
    horizontal_line(prv, 0) + vertical_line(prv, 0) + horizontal_line(prv, 1) + vertical_line(prv, 1)
        + horizontal_line(prv, 2) + vertical_line(prv, 2) + horizontal_line(prv, 3)
}

/// The name of a cell nature.
pub open spec fn nature_text(nature: CellNature) -> Seq<char> {
    match nature {
        CellNature::Empty => "Rien"@,
        CellNature::Hint => "Hint(H)"@,
        CellNature::Goal => "Goal(G)"@,
        CellNature::Invalid => "Undefined"@,
    }
}

/// The name of a cell entity.
pub open spec fn entity_text(entity: CellEntity) -> Seq<char> {
    match entity {
        CellEntity::Nobody => "Rien"@,
        CellEntity::Ally => "Ally"@,
        CellEntity::Enemy => "Enemy"@,
        CellEntity::Monster => "Monster"@,
    }
}

/// The description of a cell: its nature and its entity joined by ` + `,
/// and one word for a cell outside the maze or an empty cell with nobody on
/// it.
pub open spec fn cell_text(c: DecodedCell) -> Seq<char> {
    if c.entity == CellEntity::Nobody && c.nature == CellNature::Invalid {
        "Undefined"@
    } else if c.entity == CellEntity::Nobody && c.nature == CellNature::Empty {
        "Rien"@
    } else {
        nature_text(c.nature) + " + "@ + entity_text(c.entity)
    }
}

/// The number of a row of cells, counted from 1.
pub open spec fn row_number(row: int) -> Seq<char> {
    if row == 0 {
        "1"@
    } else if row == 1 {
        "2"@
    } else {
        "3"@
    }
}

/// Row `row` of the cells, as a line of text.
pub open spec fn cells_line(cells: Seq<DecodedCell>, row: int) -> Seq<char> {
    "Ligne "@ + row_number(row) + " => "@ + cell_text(cells[3 * row]) + ", "@ + cell_text(
        cells[3 * row + 1],
    ) + ", "@ + cell_text(cells[3 * row + 2]) + "\n"@
}

/// The first nine cells as a heading and three lines of text.
pub open spec fn cells_text(cells: Seq<DecodedCell>) -> Seq<char> {
    "Les cellules (par ligne):\n"@ + cells_line(cells, 0) + cells_line(cells, 1) + cells_line(
        cells,
        2,
    )
}

fn horizontal_glyph_of(w: Wall) -> (r: &'static str)
    ensures
        r@ == horizontal_glyph(w),
{
    match w {
        Wall::Undefined => "##",
        Wall::Open => " •",
        Wall::Wall => "-•",
    }
}

fn vertical_glyph_of(w: Wall) -> (r: &'static str)
    ensures
        r@ == vertical_glyph(w),
{
    match w {
        Wall::Undefined => "##",
        Wall::Open => " ",
        Wall::Wall => "|",
    }
}

fn push_horizontal_line(out: &mut String, prv: &PrettyRadarView, row: usize)
    requires
        prv.is_complete(),
        row < 4,
    ensures
        final(out)@ == old(out)@ + horizontal_line(prv, row as int),
{
    let base = row * 3;
    let mut line = String::from_str(horizontal_glyph_of(prv.horizontal_walls[base]));
    line.append(horizontal_glyph_of(prv.horizontal_walls[base + 1]));
    line.append(horizontal_glyph_of(prv.horizontal_walls[base + 2]));
    line.append("\n");
    out.append(line.as_str());
}

fn push_vertical_line(out: &mut String, prv: &PrettyRadarView, row: usize)
    requires
        prv.is_complete(),
        row < 3,
    ensures
        final(out)@ == old(out)@ + vertical_line(prv, row as int),
{
    let base = row * 4;
    let mut line = String::from_str(vertical_glyph_of(prv.vertical_walls[base]));
    line.append(vertical_glyph_of(prv.vertical_walls[base + 1]));
    line.append(vertical_glyph_of(prv.vertical_walls[base + 2]));
    line.append(vertical_glyph_of(prv.vertical_walls[base + 3]));
    line.append("\n");
    out.append(line.as_str());
}

/// Draws the walls of a complete snapshot as text.
pub fn visualize_radar_ascii(prv: &PrettyRadarView) -> (r: String)
    requires
        prv.is_complete(),
    ensures
        r@ == radar_ascii(prv),
{
    let mut out = String::new();
    push_horizontal_line(&mut out, prv, 0);
    assert(out@ =~= horizontal_line(prv, 0));
    push_vertical_line(&mut out, prv, 0);
    push_horizontal_line(&mut out, prv, 1);
    push_vertical_line(&mut out, prv, 1);
    push_horizontal_line(&mut out, prv, 2);
    push_vertical_line(&mut out, prv, 2);
    push_horizontal_line(&mut out, prv, 3);
    out
}

/// Describes a cell in words.
pub fn format_decoded_cell(c: DecodedCell) -> (r: String)
    ensures
        r@ == cell_text(c),
{
    let nature_str = match c.nature {
        CellNature::Empty => "Rien",
        CellNature::Hint => "Hint(H)",
        CellNature::Goal => "Goal(G)",
        CellNature::Invalid => "Undefined",
    };
    let entity_str = match c.entity {
        CellEntity::Nobody => "Rien",
        CellEntity::Ally => "Ally",
        CellEntity::Enemy => "Enemy",
        CellEntity::Monster => "Monster",
    };
    if c.entity == CellEntity::Nobody && c.nature == CellNature::Invalid {
        return String::from_str("Undefined");
    }
    if c.entity == CellEntity::Nobody && c.nature == CellNature::Empty {
        return String::from_str("Rien");
    }
    let mut out = String::from_str(nature_str);
    out.append(" + ");
    out.append(entity_str);
    out
}

fn push_cells_line(out: &mut String, cells: &[DecodedCell], row: usize)
    requires
        cells@.len() >= 9,
        row < 3,
    ensures
        final(out)@ == old(out)@ + cells_line(cells@, row as int),
{
    let start = row * 3;
    let mut line = String::from_str("Ligne ");
    line.append(
        if row == 0 {
            "1"
        } else if row == 1 {
            "2"
        } else {
            "3"
        },
    );
    line.append(" => ");
    line.append(format_decoded_cell(cells[start]).as_str());
    line.append(", ");
    line.append(format_decoded_cell(cells[start + 1]).as_str());
    line.append(", ");
    line.append(format_decoded_cell(cells[start + 2]).as_str());
    line.append("\n");
    out.append(line.as_str());
}

/// Describes the first nine cells, three to a line.
pub fn visualize_cells_like_prof(cells: &[DecodedCell]) -> (r: String)
    requires
        cells@.len() >= 9,
    ensures
        r@ == cells_text(cells@),
{
    let mut s = String::from_str("Les cellules (par ligne):\n");
    push_cells_line(&mut s, cells, 0);
    push_cells_line(&mut s, cells, 1);
    push_cells_line(&mut s, cells, 2);
    s
}

} // verus!
