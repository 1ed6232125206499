//! The radar snapshot: what the server reports of the 3x3 surroundings.
//!
//! A snapshot is addressed relative to the observer: row 0 is the row in
//! front of the player, column 0 the column to its left, and cell 4 is the
//! player's own cell. Cell `i` sits in row `i / 3` and column `i % 3`.
//! The 12 horizontal walls are the 4 rows of 3 walls that run across the
//! line of sight: wall `3 * r + c` lies in front of cell `(r, c)`, and wall
//! `3 * (r + 1) + c` behind it. The 12 vertical walls are 3 rows of 4 walls:
//! wall `4 * r + c` lies left of cell `(r, c)` and wall `4 * r + c + 1`
//! right of it.
//!
//! On the wire a snapshot is 11 bytes of base64 text: 3 bytes of horizontal
//! walls, 3 bytes of vertical walls and 5 bytes of cells. Each group of wall
//! bytes arrives least significant byte first.

use vstd::prelude::*;
use vstd::string::*;
use vstd::utf8::*;
use crate::base64::{decode_bytes, decode_spec};

verus! {

/// Why a radar text could not be decoded.
#[derive(Debug, Clone, Copy, PartialEq, Eq, Structural)]
pub enum DecodeError {
    /// The text holds a byte that is no symbol of the alphabet.
    InvalidByte,
    /// The text decodes to this many bytes instead of 11.
    LengthMismatch(usize),
}

impl DecodeError {
    /// Whether `text` is the message of the error. The number of bytes is
    /// written as `to_string` writes it.
    pub open spec fn described_by(self, text: Seq<char>) -> bool {
        match self {
            DecodeError::InvalidByte => text == "Decode error: Invalid character in encoded string"@,
            DecodeError::LengthMismatch(n) => exists|count: String|
                #[trigger]
                to_string_from_display_ensures::<usize>(&n, count) && text == "RadarView: "@ + count@
                    + " octets reçus, on s’attend à 11"@,
        }
    }

    /// The message of the error, for a log.
    pub fn message(&self) -> (r: String)
        ensures
            self.described_by(r@),
    {
        match self {
            DecodeError::InvalidByte => String::from_str(
                "Decode error: Invalid character in encoded string",
            ),
            DecodeError::LengthMismatch(n) => {
                let count = n.to_string();
                let mut text = String::from_str("RadarView: ");
                text.append(count.as_str());
                text.append(" octets reçus, on s’attend à 11");
                text
            },
        }
    }
}

/// What a cell is.
#[derive(Debug, Clone, Copy, PartialEq, Eq, Structural)]
pub enum CellNature {
    /// An ordinary cell.
    Empty,
    /// A cell that holds a hint.
    Hint,
    /// The cell to reach.
    Goal,
    /// No cell at all: the position lies outside the maze.
    Invalid,
}

/// Who stands on a cell.
#[derive(Debug, Clone, Copy, PartialEq, Eq, Structural)]
pub enum CellEntity {
    Nobody,
    Ally,
    Enemy,
    Monster,
}

/// The content of one cell of a snapshot.
#[derive(Debug, Clone, Copy, PartialEq, Eq, Structural)]
pub struct DecodedCell {
    pub nature: CellNature,
    pub entity: CellEntity,
}

/// What is known of the edge between two cells.
#[derive(Debug, Clone, Copy, PartialEq, Eq, Structural)]
pub enum Wall {
    /// No snapshot has shown the edge yet.
    Undefined,
    /// The edge can be crossed.
    Open,
    /// The edge is blocked.
    Wall,
}

/// A decoded snapshot.
#[derive(Debug)]
pub struct PrettyRadarView {
    pub horizontal_walls: Vec<Wall>,
    pub vertical_walls: Vec<Wall>,
    pub cells: Vec<DecodedCell>,
    /// Index of the observer's cell.
    pub current_cell: usize,
}

/// Number of bytes of a snapshot on the wire.
pub const RADAR_BYTES: usize = 11;

/// The big-endian value of a run of bytes, kept to its low 32 bits.
pub open spec fn packed32(bytes: Seq<u8>) -> u32
    decreases bytes.len(),
{
    if bytes.len() == 0 {
        0
    } else {
        packed32(bytes.drop_last()) << 8 | bytes.last() as u32
    }
}

/// The big-endian value of a run of bytes, kept to its low 64 bits.
pub open spec fn packed64(bytes: Seq<u8>) -> u64
    decreases bytes.len(),
{
    if bytes.len() == 0 {
        0
    } else {
        packed64(bytes.drop_last()) << 8 | bytes.last() as u64
    }
}

/// The wall state a 2-bit reading stands for. The unused reading 3 counts
/// as `Undefined`.
pub open spec fn wall_of_bits(v: u32) -> Wall {
    if v == 1 {
        Wall::Open
    } else if v == 2 {
        Wall::Wall
    } else {
        Wall::Undefined
    }
}

/// Wall `i` of a group of wall bytes: bits `24 - 2 * (i + 1) .. 24 - 2 * i`
/// of the 24-bit word the bytes form, most significant byte first.
pub open spec fn wall_reading(bytes: Seq<u8>, i: int) -> Wall {
    wall_of_bits(packed32(bytes) >> ((24 - 2 * (i + 1)) as u32) & 0b11)
}

/// The 12 walls of a group of wall bytes.
pub open spec fn decoded_walls(bytes: Seq<u8>) -> Seq<Wall> {
    Seq::new(12, |i: int| wall_reading(bytes, i))
}

/// The cell content a 4-bit reading stands for. `0xF` marks a position
/// outside the maze. Otherwise the upper two bits give the nature and the
/// lower two the entity.
pub open spec fn cell_of_nibble(n: u8) -> DecodedCell {
    if n == 0xF {
        DecodedCell { nature: CellNature::Invalid, entity: CellEntity::Nobody }
    } else {
        let nature_bits = n >> 2 & 0b11;
        let entity_bits = n & 0b11;
        DecodedCell {
            nature: if nature_bits == 0 {
                CellNature::Empty
            } else if nature_bits == 1 {
                CellNature::Hint
            } else if nature_bits == 2 {
                CellNature::Goal
            } else {
                CellNature::Invalid
            },
            entity: if entity_bits == 0 {
                CellEntity::Nobody
            } else if entity_bits == 1 {
                CellEntity::Ally
            } else if entity_bits == 2 {
                CellEntity::Enemy
            } else {
                CellEntity::Monster
            },
        }
    }
}

/// The 4-bit reading of cell `i`: bits `36 - 4 * i .. 40 - 4 * i` of the
/// 40-bit word the cell bytes form, most significant byte first.
pub open spec fn cell_nibble(bytes: Seq<u8>, i: int) -> u8 {
    (packed64(bytes) >> ((36 - 4 * i) as u64) & 0xF) as u8
}

/// The 9 cells of a group of cell bytes.
pub open spec fn decoded_cells(bytes: Seq<u8>) -> Seq<DecodedCell> {
    Seq::new(9, |i: int| cell_of_nibble(cell_nibble(bytes, i)))
}

/// The value of a run of three bytes is its first byte in bits 16 to 23, its
/// second in bits 8 to 15 and its third in bits 0 to 7; that of a run of
/// five bytes is laid out likewise.
proof fn lemma_packed(bytes: Seq<u8>)
    ensures
        bytes.len() == 3 ==> packed32(bytes) == (bytes[0] as u32) << 16 | (bytes[1] as u32) << 8
            | bytes[2] as u32,
        bytes.len() == 5 ==> packed64(bytes) == (bytes[0] as u64) << 32 | (bytes[1] as u64) << 24
            | (bytes[2] as u64) << 16 | (bytes[3] as u64) << 8 | bytes[4] as u64,
{
    if bytes.len() == 3 {
        let two = bytes.drop_last();
        let one = two.drop_last();
        assert(packed32(one.drop_last()) == 0);
        assert(packed32(one) == 0u32 << 8 | bytes[0] as u32);
        assert(packed32(two) == packed32(one) << 8 | bytes[1] as u32);
        let a = bytes[0];
        let b = bytes[1];
        let c = bytes[2];
        assert(((0u32 << 8 | a as u32) << 8 | b as u32) << 8 | c as u32 == (a as u32) << 16 | (
        b as u32) << 8 | c as u32) by (bit_vector);
    }
    if bytes.len() == 5 {
        let four = bytes.drop_last();
        let three = four.drop_last();
        let two = three.drop_last();
        let one = two.drop_last();
        assert(packed64(one.drop_last()) == 0);
        assert(packed64(one) == 0u64 << 8 | bytes[0] as u64);
        assert(packed64(two) == packed64(one) << 8 | bytes[1] as u64);
        assert(packed64(three) == packed64(two) << 8 | bytes[2] as u64);
        assert(packed64(four) == packed64(three) << 8 | bytes[3] as u64);
        let a = bytes[0];
        let b = bytes[1];
        let c = bytes[2];
        let d = bytes[3];
        let e = bytes[4];
        assert(((((0u64 << 8 | a as u64) << 8 | b as u64) << 8 | c as u64) << 8 | d as u64) << 8
            | e as u64 == (a as u64) << 32 | (b as u64) << 24 | (c as u64) << 16 | (d as u64) << 8
            | e as u64) by (bit_vector);
    }
}

proof fn lemma_wall_bits(a: u8, b: u8, c: u8, k: u32)
    by (bit_vector)
    requires
        k < 4,
    ensures
        ((a as u32) << 16 | (b as u32) << 8 | c as u32) >> ((22 - 2 * k) as u32) & 0b11 == (a >> ((
        6 - 2 * k) as u8) & 0b11) as u32,
        ((a as u32) << 16 | (b as u32) << 8 | c as u32) >> ((14 - 2 * k) as u32) & 0b11 == (b >> ((
        6 - 2 * k) as u8) & 0b11) as u32,
        ((a as u32) << 16 | (b as u32) << 8 | c as u32) >> ((6 - 2 * k) as u32) & 0b11 == (c >> ((6
            - 2 * k) as u8) & 0b11) as u32,
{
}

proof fn lemma_cell_bits(a: u8, b: u8, c: u8, d: u8, e: u8)
    by (bit_vector)
    ensures
        ({
            let word = (a as u64) << 32 | (b as u64) << 24 | (c as u64) << 16 | (d as u64) << 8
                | e as u64;
            &&& (word >> 36 & 0xF) as u8 == a >> 4
            &&& (word >> 32 & 0xF) as u8 == a & 0xF
            &&& (word >> 28 & 0xF) as u8 == b >> 4
            &&& (word >> 24 & 0xF) as u8 == b & 0xF
            &&& (word >> 20 & 0xF) as u8 == c >> 4
            &&& (word >> 16 & 0xF) as u8 == c & 0xF
            &&& (word >> 12 & 0xF) as u8 == d >> 4
            &&& (word >> 8 & 0xF) as u8 == d & 0xF
            &&& (word >> 4 & 0xF) as u8 == e >> 4
        }),
{
}

/// In a group of three wall bytes, wall `i` is read from byte `i / 4`, two
/// bits at a time from the most significant bits down.
pub proof fn lemma_wall_layout(bytes: Seq<u8>, i: int)
    requires
        bytes.len() == 3,
        0 <= i < 12,
    ensures
        wall_reading(bytes, i) == wall_of_bits(
            (bytes[i / 4] >> ((6 - 2 * (i % 4)) as u8) & 0b11) as u32,
        ),
{
    lemma_packed(bytes);
    lemma_wall_bits(bytes[0], bytes[1], bytes[2], (i % 4) as u32);
}

/// In a group of five cell bytes, cell `i` is read from byte `i / 2`: the
/// upper four bits for an even `i`, the lower four bits for an odd one. The
/// lower four bits of the last byte are not read.
pub proof fn lemma_cell_layout(bytes: Seq<u8>, i: int)
    requires
        bytes.len() == 5,
        0 <= i < 9,
    ensures
        cell_nibble(bytes, i) == (if i % 2 == 0 {
            bytes[i / 2] >> 4
        } else {
            bytes[i / 2] & 0xF
        }),
{
    lemma_packed(bytes);
    lemma_cell_bits(bytes[0], bytes[1], bytes[2], bytes[3], bytes[4]);
}

/// The three byte groups of a radar text: the horizontal walls and the
/// vertical walls, each turned most significant byte first, and the cells.
/// A text that does not decode to exactly 11 bytes is refused.
pub open spec fn radar_groups(text: Seq<u8>) -> Result<(Seq<u8>, Seq<u8>, Seq<u8>), DecodeError> {
    match decode_spec(text) {
        Err(e) => Err(e),
        Ok(d) => if d.len() != RADAR_BYTES {
            Err(DecodeError::LengthMismatch(d.len() as usize))
        } else {
            Ok((d.subrange(0, 3).reverse(), d.subrange(3, 6).reverse(), d.subrange(6, 11)))
        },
    }
}

impl PrettyRadarView {
    /// Whether the snapshot holds its 12 + 12 walls and 9 cells.
    pub open spec fn is_complete(&self) -> bool {
        &&& self.horizontal_walls@.len() == 12
        &&& self.vertical_walls@.len() == 12
        &&& self.cells@.len() == 9
    }

    /// Whether the snapshot is what the three byte groups decode to.
    pub open spec fn shows(&self, groups: (Seq<u8>, Seq<u8>, Seq<u8>)) -> bool {
        &&& self.horizontal_walls@ == decoded_walls(groups.0)
        &&& self.vertical_walls@ == decoded_walls(groups.1)
        &&& self.cells@ == decoded_cells(groups.2)
        &&& self.current_cell == 4
    }

    /// Whether the snapshot holds nothing: the stand-in for a text that
    /// could not be decoded.
    pub open spec fn is_blank(&self) -> bool {
        &&& self.horizontal_walls@.len() == 0
        &&& self.vertical_walls@.len() == 0
        &&& self.cells@.len() == 0
        &&& self.current_cell == 4
    }

    /// The wall in front of cell `i`.
    pub open spec fn wall_front(&self, i: int) -> Wall {
        self.horizontal_walls@[i]
    }

    /// The wall behind cell `i`.
    pub open spec fn wall_back(&self, i: int) -> Wall {
        self.horizontal_walls@[i + 3]
    }

    /// The wall left of cell `i`.
    pub open spec fn wall_left(&self, i: int) -> Wall {
        self.vertical_walls@[i + i / 3]
    }

    /// The wall right of cell `i`.
    pub open spec fn wall_right(&self, i: int) -> Wall {
        self.vertical_walls@[i + i / 3 + 1]
    }

    /// The cells next to the observer's cell inside the snapshot, each with
    /// the wall that separates it from the observer's cell: the one in
    /// front, the one behind, the one to the left, the one to the right.
    pub open spec fn spec_visible_neighbors(&self) -> Seq<(usize, Wall)> {
        let cur = self.current_cell as int;
        let front = if cur / 3 > 0 {
            seq![((cur - 3) as usize, self.wall_front(cur))]
        } else {
            seq![]
        };
        let back = if cur / 3 < 2 {
            seq![((cur + 3) as usize, self.wall_back(cur))]
        } else {
            seq![]
        };
        let left = if cur % 3 > 0 {
            seq![((cur - 1) as usize, self.wall_left(cur))]
        } else {
            seq![]
        };
        let right = if cur % 3 < 2 {
            seq![((cur + 1) as usize, self.wall_right(cur))]
        } else {
            seq![]
        };
        front + back + left + right
    }

    /// The neighbours of the observer's cell that the snapshot shows, with
    /// the wall towards each.
    pub fn visible_neighbors(&self) -> (r: Vec<(usize, Wall)>)
        requires
            self.is_complete(),
            self.current_cell < 9,
        ensures
            r@ == self.spec_visible_neighbors(),
    {
        let mut neighbors: Vec<(usize, Wall)> = Vec::new();
        let cur = self.current_cell;
        let current_row = cur / 3;
        let current_col = cur % 3;
        if current_row > 0 {
            neighbors.push((cur - 3, self.horizontal_walls[cur]));
        }
        if current_row < 2 {
            neighbors.push((cur + 3, self.horizontal_walls[cur + 3]));
        }
        if current_col > 0 {
            neighbors.push((cur - 1, self.vertical_walls[cur + current_row]));
        }
        if current_col < 2 {
            neighbors.push((cur + 1, self.vertical_walls[cur + current_row + 1]));
        }
        assert(neighbors@ =~= self.spec_visible_neighbors());
        neighbors
    }
}

/// Splits a radar text into its three byte groups.
pub fn decode_radar_view(radar_b64: &str) -> (r: Result<(Vec<u8>, Vec<u8>, Vec<u8>), DecodeError>)
    ensures
        match radar_groups(encode_utf8(radar_b64@)) {
            Ok(g) => r is Ok && (r->Ok_0.0@, r->Ok_0.1@, r->Ok_0.2@) == g,
            Err(e) => r is Err && r->Err_0 == e,
        },
{
    let bytes = match decode_bytes(radar_b64.as_bytes()) {
        Ok(bytes) => bytes,
        Err(e) => {
            return Err(e);
        },
    };
    if bytes.len() != RADAR_BYTES {
        return Err(DecodeError::LengthMismatch(bytes.len()));
    }
    let mut horizontals: Vec<u8> = Vec::new();
    horizontals.push(bytes[2]);
    horizontals.push(bytes[1]);
    horizontals.push(bytes[0]);
    let mut verticals: Vec<u8> = Vec::new();
    verticals.push(bytes[5]);
    verticals.push(bytes[4]);
    verticals.push(bytes[3]);
    let mut cells: Vec<u8> = Vec::new();
    let mut i: usize = 6;
    while i < 11
        invariant
            6 <= i <= 11,
            bytes@.len() == 11,
            cells@ == bytes@.subrange(6, i as int),
        decreases 11 - i,
    {
        cells.push(bytes[i]);
        i += 1;
    }
    assert(horizontals@ =~= bytes@.subrange(0, 3).reverse());
    assert(verticals@ =~= bytes@.subrange(3, 6).reverse());
    Ok((horizontals, verticals, cells))
}

fn pack32(bytes: &[u8]) -> (word: u32)
    ensures
        word == packed32(bytes@),
{
    let mut word: u32 = 0;
    let mut k: usize = 0;
    while k < bytes.len()
        invariant
            k <= bytes@.len(),
            word == packed32(bytes@.take(k as int)),
        decreases bytes@.len() - k,
    {
        assert(bytes@.take(k + 1).drop_last() =~= bytes@.take(k as int));
        word = word << 8 | bytes[k] as u32;
        k += 1;
    }
    assert(bytes@.take(k as int) =~= bytes@);
    word
}

fn pack64(bytes: &[u8]) -> (word: u64)
    ensures
        word == packed64(bytes@),
{
    let mut word: u64 = 0;
    let mut k: usize = 0;
    while k < bytes.len()
        invariant
            k <= bytes@.len(),
            word == packed64(bytes@.take(k as int)),
        decreases bytes@.len() - k,
    {
        assert(bytes@.take(k + 1).drop_last() =~= bytes@.take(k as int));
        word = word << 8 | bytes[k] as u64;
        k += 1;
    }
    assert(bytes@.take(k as int) =~= bytes@);
    word
}

/// Unpacks the 12 wall readings of a group of wall bytes.
pub fn decode_walls(bytes: &[u8]) -> (r: Vec<Wall>)
    ensures
        r@ == decoded_walls(bytes@),
{
    let mut walls: Vec<Wall> = Vec::with_capacity(12);
    let bits_24 = pack32(bytes);
    let mut i: u32 = 0;
    while i < 12
        invariant
            i <= 12,
            bits_24 == packed32(bytes@),
            walls@.len() == i,
            forall|k: int| 0 <= k < i ==> walls@[k] == wall_reading(bytes@, k),
        decreases 12 - i,
    {
        let shift = 24 - 2 * (i + 1);
        let val = bits_24 >> shift & 0b11;
        walls.push(
            if val == 1 {
                Wall::Open
            } else if val == 2 {
                Wall::Wall
            } else {
                Wall::Undefined
            },
        );
        i += 1;
    }
    assert(walls@ =~= decoded_walls(bytes@));
    walls
}

/// Reads the content of one cell from its 4-bit reading.
pub fn decode_one_cell(n: u8) -> (r: DecodedCell)
    ensures
        r == cell_of_nibble(n),
{
    if n == 0xF {
        return DecodedCell { nature: CellNature::Invalid, entity: CellEntity::Nobody };
    }
    let nature_bits = n >> 2 & 0b11;
    let entity_bits = n & 0b11;
    DecodedCell {
        nature: if nature_bits == 0 {
            CellNature::Empty
        } else if nature_bits == 1 {
            CellNature::Hint
        } else if nature_bits == 2 {
            CellNature::Goal
        } else {
            CellNature::Invalid
        },
        entity: if entity_bits == 0 {
            CellEntity::Nobody
        } else if entity_bits == 1 {
            CellEntity::Ally
        } else if entity_bits == 2 {
            CellEntity::Enemy
        } else {
            CellEntity::Monster
        },
    }
}

/// Unpacks the 9 cells of a group of cell bytes.
pub fn decode_cells(bytes: &[u8]) -> (r: Vec<DecodedCell>)
    ensures
        r@ == decoded_cells(bytes@),
{
    let bits_40 = pack64(bytes);
    let mut result: Vec<DecodedCell> = Vec::with_capacity(9);
    let mut i: u64 = 0;
    while i < 9
        invariant
            i <= 9,
            bits_40 == packed64(bytes@),
            result@.len() == i,
            forall|k: int| 0 <= k < i ==> result@[k] == cell_of_nibble(cell_nibble(bytes@, k)),
        decreases 9 - i,
    {
        let shift = 36 - 4 * i;
        let nib = (bits_40 >> shift & 0xF) as u8;
        result.push(decode_one_cell(nib));
        i += 1;
    }
    assert(result@ =~= decoded_cells(bytes@));
    result
}

/// Builds the snapshot from its three byte groups.
pub fn interpret_radar_view(h: &[u8], v: &[u8], c: &[u8]) -> (r: PrettyRadarView)
    ensures
        r.shows((h@, v@, c@)),
        r.is_complete(),
{
    PrettyRadarView {
        horizontal_walls: decode_walls(h),
        vertical_walls: decode_walls(v),
        cells: decode_cells(c),
        current_cell: 4,
    }
}

/// Decodes a radar text into a snapshot.
pub fn parse_radar_view(radar_str: &str) -> (r: Result<PrettyRadarView, DecodeError>)
    ensures
        match radar_groups(encode_utf8(radar_str@)) {
            Ok(g) => r is Ok && r->Ok_0.shows(g) && r->Ok_0.is_complete(),
            Err(e) => r is Err && r->Err_0 == e,
        },
{
    match decode_radar_view(radar_str) {
        Ok((h, v, c)) => Ok(interpret_radar_view(h.as_slice(), v.as_slice(), c.as_slice())),
        Err(e) => Err(e),
    }
}

/// Decodes a radar text into a snapshot; a text that cannot be decoded
/// gives the blank snapshot.
pub fn process_radar_view(radar_str: &str) -> (r: PrettyRadarView)
    ensures
        match radar_groups(encode_utf8(radar_str@)) {
            Ok(g) => r.shows(g) && r.is_complete(),
            Err(_) => r.is_blank(),
        },
{
    match parse_radar_view(radar_str) {
        Ok(view) => view,
        Err(_) => PrettyRadarView {
            horizontal_walls: Vec::new(),
            vertical_walls: Vec::new(),
            cells: Vec::new(),
            current_cell: 4,
        },
    }
}

} // verus!
