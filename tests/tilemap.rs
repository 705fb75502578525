use rust_ecs::tilemap::{parse_field, parse_map, Tile};

#[test]
fn parse_map_rows_and_columns() {
    let tiles = parse_map(b"1,2\n30,4\n").unwrap();
    assert_eq!(
        tiles,
        vec![
            Tile { x: 0, y: 0, sprite_id: 1 },
            Tile { x: 1, y: 0, sprite_id: 2 },
            Tile { x: 0, y: 1, sprite_id: 30 },
            Tile { x: 1, y: 1, sprite_id: 4 },
        ]
    );
}

#[test]
fn parse_map_handles_carriage_returns_and_no_final_newline() {
    let tiles = parse_map(b"5,6\r\n7").unwrap();
    assert_eq!(
        tiles,
        vec![
            Tile { x: 0, y: 0, sprite_id: 5 },
            Tile { x: 1, y: 0, sprite_id: 6 },
            Tile { x: 0, y: 1, sprite_id: 7 },
        ]
    );
}

#[test]
fn parse_map_empty_text_has_no_tiles() {
    assert_eq!(parse_map(b""), Some(vec![]));
}

#[test]
fn parse_map_rejects_bad_fields() {
    assert_eq!(parse_map(b"1,x\n"), None);
    assert_eq!(parse_map(b"1,,2\n"), None);
    assert_eq!(parse_map(b"1\n\n2\n"), None);
    assert_eq!(parse_map(b"1, 2\n"), None);
}

#[test]
fn parse_field_decimal_u32() {
    assert_eq!(parse_field(b"0"), Some(0));
    assert_eq!(parse_field(b"+17"), Some(17));
    assert_eq!(parse_field(b"4294967295"), Some(4294967295));
    assert_eq!(parse_field(b"4294967296"), None);
    assert_eq!(parse_field(b"99999999999x"), None);
    assert_eq!(parse_field(b""), None);
    assert_eq!(parse_field(b"+"), None);
    assert_eq!(parse_field(b"-1"), None);
}
