use illumina_coordinates::parse_coordinate_identifier;
use illumina_coordinates::IlluminaError;

#[test]
fn coordinate_only_line_parses() {
    let line = "@M03745:11:000000000-B54L5:1:2108:4127:8949";
    let coords = parse_coordinate_identifier(&line).unwrap();
    assert_eq!(coords.sequencer_id, "M03745".to_string());
    assert_eq!(coords.run_count, 11);
    assert_eq!(coords.flow_cell_id, "000000000-B54L5".to_string());
    assert_eq!(coords.lane, 1);
    assert_eq!(coords.side, 2);
    assert_eq!(coords.swath, 1);
    assert_eq!(coords.tile, 8);
    assert_eq!(coords.x, 4127);
    assert_eq!(coords.y, 8949);
}

#[test]
fn coordinate_only_line_with_newline_parses() {
    let line = "@M03745:11:000000000-B54L5:1:2108:4127:8949\n";
    let coords = parse_coordinate_identifier(&line).unwrap();
    assert_eq!(coords.sequencer_id, "M03745".to_string());
    assert_eq!(coords.y, 8949);
}

#[test]
fn full_format_line_is_a_split_error_in_coordinate_mode() {
    let line = "@M03745:11:000000000-B54L5:1:2108:4127:8949 1:N:0:0";
    let result = parse_coordinate_identifier(&line);
    assert!(matches!(result, Err(IlluminaError::SplitError)));
}

#[test]
fn raw_base_sequence_is_a_split_error_in_coordinate_mode() {
    let result = parse_coordinate_identifier("CACGACGACTAGCTACGGACGCGGCACGACGCAG");
    assert!(matches!(result, Err(IlluminaError::SplitError)));
}

#[test]
fn non_numeric_field_is_a_parse_error_in_coordinate_mode() {
    let result = parse_coordinate_identifier("@M03745:11:000000000-B54L5:one:2108:4127:8949");
    assert!(matches!(result, Err(IlluminaError::ParseError)));
}
