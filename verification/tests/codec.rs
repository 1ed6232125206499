use rusty_laby::ascii_utils::{visualize_cells_like_prof, visualize_radar_ascii};
use rusty_laby::base64::{decode, decode_bytes, encode};
use rusty_laby::radarview::{
    decode_cells, decode_one_cell, decode_radar_view, decode_walls, interpret_radar_view,
    parse_radar_view, process_radar_view, CellEntity, CellNature, DecodeError, DecodedCell, Wall,
};

fn cell(nature: CellNature, entity: CellEntity) -> DecodedCell {
    DecodedCell { nature, entity }
}

#[test]
fn test_decode_radar_view() {
    let (h, v, c) = decode_radar_view("ieysGjGO8papd/a").unwrap();
    let radar_view = interpret_radar_view(&h, &v, &c);

    assert_eq!(radar_view.horizontal_walls.len(), 12);
    assert_eq!(radar_view.horizontal_walls, vec![
        Wall::Undefined, Wall::Open, Wall::Undefined,
        Wall::Wall, Wall::Open, Wall::Undefined,
        Wall::Open, Wall::Wall, Wall::Undefined,
        Wall::Wall, Wall::Undefined, Wall::Undefined
    ]);

    assert_eq!(radar_view.vertical_walls.len(), 12);
    assert_eq!(radar_view.vertical_walls, vec![
        Wall::Undefined, Wall::Wall, Wall::Wall, Wall::Undefined,
        Wall::Wall, Wall::Open, Wall::Wall, Wall::Undefined,
        Wall::Wall, Wall::Undefined, Wall::Undefined, Wall::Undefined
    ]);

    let outside = cell(CellNature::Invalid, CellEntity::Nobody);
    let empty = cell(CellNature::Empty, CellEntity::Nobody);
    assert_eq!(radar_view.cells.len(), 9);
    assert_eq!(radar_view.cells, vec![
        outside, empty, outside,
        empty, empty, outside,
        empty, outside, outside
    ]);
}

#[test]
fn test_encode_decode() {
    assert_eq!(encode(&[0]), "aa");
    assert_eq!(encode(&[25]), "gq");
    assert_eq!(encode(&[26]), "gG");
    assert_eq!(encode(&[51]), "mW");
    assert_eq!(encode(&[52]), "na");
    assert_eq!(encode(&[61]), "pq");
    assert_eq!(encode(&[62]), "pG");
    assert_eq!(encode(&[63]), "pW");
    assert_eq!(encode(b"Hello, World!"), "sgvSBg8SifDVCMXKiq");
    assert_eq!(encode(&[0,1,2,3,4,5,6,7,8,9,10,11,12,13,14,15,16,17,18,19,20,21,22,23,24,25,26,27,28,29,30,31,32,33,34,35,36,37,38,39,40,41,42,43,44,45,46,47,48,49,50,51,52,53,54,55,56,57,58,59,60,61,62,63,64,65,66,67,68,69,70,71,72,73,74,75,76,77,78,79,80,81,82,83,84,85,86,87,88,89,90,91,92,93,94,95,96,97,98,99,100,101,102,103,104,105,106,107,108,109,110,111,112,113,114,115,116,117,118,119,120,121,122,123,124,125,126,127,128,129,130,131,132,133,134,135,136,137,138,139,140,141,142,143,144,145,146,147,148,149,150,151,152,153,154,155,156,157,158,159,160,161,162,163,164,165,166,167,168,169,170,171,172,173,174,175,176,177,178,179,180,181,182,183,184,185,186,187,188,189,190,191,192,193,194,195,196,197,198,199,200,201,202,203,204,205,206,207,208,209,210,211,212,213,214,215,216,217,218,219,220,221,222,223,224,225,226,227,228,229,230,231,232,233,234,235,236,237,238,239,240,241,242,243,244,245,246,247,248,249,250,251,252,253,254,255]), "aaecaWqfbGCicqOlda0odXareHmufryxgbKAgXWDhH8GisiJjcuMjYGPkISSls4VmdeYmZq1nJC4otO7pd0+p0bbqKneruzhseLks0XntK9quvjtvfvwv1HzwLTCxv5FygfIy2rLzMDOAwPRBg1UB3bXCNn0Dxz3EhL6E3X9FN+aGykdHiwgH4IjIOUmJy6pKjgsK5svLPEyMzQBNj2EN6cHOQoKPAANQkMQQ6YTRQ+WSBkZTlw2T7I5URU8VB6/WmhcW8tfXSFiYCRlZm3oZ9dr0Tpu1DBx2nNA29ZD3T/G4ElJ5oxM5+JP6UVS7E7V8phY8/t19VF4+FR7/p3+/W");

    let test_string = "Hello Radar!";
    let encoded = encode(test_string.as_bytes());
    let decoded = decode(encoded).unwrap();
    assert_eq!(decoded, test_string.as_bytes());

    let test_string = "";
    let encoded = encode(test_string.as_bytes());
    let decoded = decode(encoded).unwrap();
    assert_eq!(decoded, test_string.as_bytes());

    let test_string = "This is a longer test string to really see if everything is working fine.";
    let encoded = encode(test_string.as_bytes());
    let decoded = decode(encoded).unwrap();
    assert_eq!(decoded, test_string.as_bytes());
}

#[test]
fn test_decode_invalid_char() {
    assert!(decode(String::from("abçd")).is_err());
}

#[test]
fn test_radar_ieys() {
    let code = "rAeaksua//8a8aa";
    match decode_radar_view(code) {
        Ok((h, v, c)) => {
            let rv = interpret_radar_view(&h, &v, &c);
            let _cells_str = visualize_cells_like_prof(&rv.cells);
            let _ascii = visualize_radar_ascii(&rv);
        }
        Err(e) => println!("Erreur decode_radar_view: {}", e.message()),
    }
}

#[test]
fn decode_is_repeatable() {
    let first = parse_radar_view("ieysGjGO8papd/a").unwrap();
    let second = parse_radar_view("ieysGjGO8papd/a").unwrap();
    assert_eq!(first.horizontal_walls, second.horizontal_walls);
    assert_eq!(first.vertical_walls, second.vertical_walls);
    assert_eq!(first.cells, second.cells);
    assert_eq!(first.current_cell, second.current_cell);
    assert_eq!(decode(String::from("rAeaksua//8a8aa")), decode(String::from("rAeaksua//8a8aa")));
}

#[test]
fn decode_gives_the_eleven_bytes() {
    assert_eq!(
        decode(String::from("ieysGjGO8papd/a")),
        Ok(vec![0x20, 0x46, 0x12, 0x80, 0x98, 0x28, 0xf0, 0xf0, 0x0f, 0x0f, 0xf0])
    );
}

#[test]
fn decode_radar_view_turns_the_wall_bytes() {
    let (h, v, c) = decode_radar_view("ieysGjGO8papd/a").unwrap();
    assert_eq!(h, vec![0x12, 0x46, 0x20]);
    assert_eq!(v, vec![0x28, 0x98, 0x80]);
    assert_eq!(c, vec![0xf0, 0xf0, 0x0f, 0x0f, 0xf0]);
}

#[test]
fn decode_ignores_padding_at_the_end() {
    assert_eq!(decode(String::from("aa")), Ok(vec![0]));
    assert_eq!(decode(String::from("aa==")), Ok(vec![0]));
    assert_eq!(decode(String::from("aa=")), Ok(vec![0]));
    assert_eq!(
        decode(String::from("ieysGjGO8papd/a=")),
        decode(String::from("ieysGjGO8papd/a"))
    );
    assert_eq!(decode(String::from("====")), Ok(vec![]));
}

#[test]
fn decode_refuses_padding_in_the_middle() {
    assert_eq!(decode(String::from("aa=a")), Err(DecodeError::InvalidByte));
}

#[test]
fn decode_refuses_bytes_outside_the_alphabet() {
    assert_eq!(decode(String::from("ab*d")), Err(DecodeError::InvalidByte));
    assert_eq!(decode(String::from("ab d")), Err(DecodeError::InvalidByte));
    assert_eq!(decode(String::from("abcd\n")), Err(DecodeError::InvalidByte));
    assert_eq!(decode_bytes(&[0x80, 0x61]), Err(DecodeError::InvalidByte));
    assert_eq!(decode_radar_view("ieysGjGO8pa-d/a"), Err(DecodeError::InvalidByte));
}

#[test]
fn decode_drops_left_over_bits() {
    assert_eq!(decode(String::from("")), Ok(vec![]));
    assert_eq!(decode(String::from("b")), Ok(vec![4]));
    assert_eq!(decode(String::from("gq")), Ok(vec![25]));
    assert_eq!(decode(String::from("gqb")), Ok(vec![25, 0]));
    assert_eq!(decode(String::from("aaeb")), Ok(vec![0, 1, 1]));
    assert_eq!(decode(String::from("////")), Ok(vec![255, 255, 255]));
}

#[test]
fn radar_text_must_hold_eleven_bytes() {
    assert_eq!(decode_radar_view("aaaa"), Err(DecodeError::LengthMismatch(3)));
    assert_eq!(decode_radar_view(""), Err(DecodeError::LengthMismatch(0)));
    assert_eq!(decode_radar_view("ieysGjGO8papd/aa"), Err(DecodeError::LengthMismatch(12)));
    assert_eq!(decode_radar_view("ieysGjGO8papd/"), Err(DecodeError::LengthMismatch(10)));
    assert!(parse_radar_view("aaaa").is_err());
}

#[test]
fn encode_then_decode_gives_the_bytes_back() {
    let mut data: Vec<u8> = Vec::new();
    for round in 0..3u32 {
        for value in 0..=255u8 {
            data.push(value.wrapping_mul(7).wrapping_add(round as u8));
            let text = encode(&data);
            assert_eq!(decode(text), Ok(data.clone()));
        }
    }
}

#[test]
fn encode_uses_the_alphabet_in_order() {
    assert_eq!(encode(&[]), "");
    assert_eq!(encode(&[0, 16, 131]), "abcd");
    assert_eq!(encode(&[255, 255, 255]), "////");
    assert_eq!(encode(&[251, 255, 191]), "+/+/");
    assert_eq!(encode(&[0x20, 0x46, 0x12, 0x80, 0x98, 0x28, 0xf0, 0xf0, 0x0f, 0x0f, 0xf0]), "ieysGjGO8papd/a");
}

#[test]
fn walls_are_read_from_the_most_significant_bits_down() {
    assert_eq!(
        decode_walls(&[0b00_01_10_11, 0b01_00_00_10, 0b10_10_01_01]),
        vec![
            Wall::Undefined, Wall::Open, Wall::Wall, Wall::Undefined,
            Wall::Open, Wall::Undefined, Wall::Undefined, Wall::Wall,
            Wall::Wall, Wall::Wall, Wall::Open, Wall::Open
        ]
    );
    assert_eq!(decode_walls(&[]), vec![Wall::Undefined; 12]);
    assert_eq!(decode_walls(&[0x40]), {
        let mut walls = vec![Wall::Undefined; 12];
        walls[8] = Wall::Open;
        walls
    });
}

#[test]
fn one_cell_from_its_four_bits() {
    assert_eq!(decode_one_cell(0x0), cell(CellNature::Empty, CellEntity::Nobody));
    assert_eq!(decode_one_cell(0x1), cell(CellNature::Empty, CellEntity::Ally));
    assert_eq!(decode_one_cell(0x2), cell(CellNature::Empty, CellEntity::Enemy));
    assert_eq!(decode_one_cell(0x3), cell(CellNature::Empty, CellEntity::Monster));
    assert_eq!(decode_one_cell(0x4), cell(CellNature::Hint, CellEntity::Nobody));
    assert_eq!(decode_one_cell(0x8), cell(CellNature::Goal, CellEntity::Nobody));
    assert_eq!(decode_one_cell(0x9), cell(CellNature::Goal, CellEntity::Ally));
    assert_eq!(decode_one_cell(0xC), cell(CellNature::Invalid, CellEntity::Nobody));
    assert_eq!(decode_one_cell(0xE), cell(CellNature::Invalid, CellEntity::Enemy));
    assert_eq!(decode_one_cell(0xF), cell(CellNature::Invalid, CellEntity::Nobody));
}

#[test]
fn cells_are_read_four_bits_at_a_time() {
    assert_eq!(
        decode_cells(&[0x04, 0x8f, 0x12, 0x3c, 0x90]),
        vec![
            cell(CellNature::Empty, CellEntity::Nobody),
            cell(CellNature::Hint, CellEntity::Nobody),
            cell(CellNature::Goal, CellEntity::Nobody),
            cell(CellNature::Invalid, CellEntity::Nobody),
            cell(CellNature::Empty, CellEntity::Ally),
            cell(CellNature::Empty, CellEntity::Enemy),
            cell(CellNature::Empty, CellEntity::Monster),
            cell(CellNature::Invalid, CellEntity::Nobody),
            cell(CellNature::Goal, CellEntity::Ally),
        ]
    );
}

#[test]
fn second_sample_puts_the_player_on_an_empty_cell() {
    let view = parse_radar_view("rAeaksua//8a8aa").unwrap();
    assert_eq!(view.current_cell, 4);
    assert_eq!(view.cells[4], cell(CellNature::Empty, CellEntity::Nobody));
    assert_eq!(
        view.horizontal_walls,
        vec![
            Wall::Undefined, Wall::Undefined, Wall::Undefined,
            Wall::Undefined, Wall::Wall, Wall::Wall,
            Wall::Undefined, Wall::Open, Wall::Open,
            Wall::Undefined, Wall::Open, Wall::Open
        ]
    );
}

#[test]
fn a_text_that_cannot_be_decoded_gives_the_blank_snapshot() {
    let view = process_radar_view("not a radar text");
    assert!(view.horizontal_walls.is_empty());
    assert!(view.vertical_walls.is_empty());
    assert!(view.cells.is_empty());
    let view = process_radar_view("ieysGjGO8papd/a");
    assert_eq!(view.horizontal_walls.len(), 12);
    assert_eq!(view.vertical_walls.len(), 12);
    assert_eq!(view.cells.len(), 9);
}

#[test]
fn errors_have_messages() {
    assert_eq!(
        DecodeError::InvalidByte.message(),
        "Decode error: Invalid character in encoded string"
    );
    assert_eq!(
        DecodeError::LengthMismatch(3).message(),
        "RadarView: 3 octets reçus, on s’attend à 11"
    );
}

#[test]
fn neighbours_of_the_middle_cell() {
    let view = parse_radar_view("ieysGjGO8papd/a").unwrap();
    assert_eq!(
        view.visible_neighbors(),
        vec![(1, Wall::Open), (7, Wall::Wall), (3, Wall::Open), (5, Wall::Wall)]
    );
}
