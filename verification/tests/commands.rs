use dither_panels::commands::color_lab::{check_hex6, hex_arg_body, normalize_hex_arg};
use dither_panels::commands::{validate_document_dimensions, MAX_DOCUMENT_DIMENSION};
use dither_panels::tile_grid::{check_tile_coordinate, tile_grid, tile_span_at_level};

#[test]
fn commands_validate_document_dimensions_rejects_zero_and_over_max() {
    assert!(validate_document_dimensions(0, 8).is_err());
    assert!(validate_document_dimensions(8, 0).is_err());
    assert!(validate_document_dimensions(MAX_DOCUMENT_DIMENSION + 1, 8).is_err());
    assert!(validate_document_dimensions(8, MAX_DOCUMENT_DIMENSION + 1).is_err());
    assert!(validate_document_dimensions(1, 1).is_ok());
    assert!(validate_document_dimensions(MAX_DOCUMENT_DIMENSION, MAX_DOCUMENT_DIMENSION).is_ok());
}

#[test]
fn tests_validate_document_dimensions_rejects_zero_and_over_max() {
    assert!(validate_document_dimensions(0, 100).is_err());
    assert!(validate_document_dimensions(100, 0).is_err());
    assert!(validate_document_dimensions(MAX_DOCUMENT_DIMENSION + 1, 100).is_err());
    assert!(validate_document_dimensions(100, MAX_DOCUMENT_DIMENSION + 1).is_err());
}

#[test]
fn validate_document_dimensions_messages() {
    assert_eq!(
        validate_document_dimensions(0, 5).unwrap_err(),
        "Invalid state: image has zero dimensions"
    );
    assert_eq!(
        validate_document_dimensions(9000, 20).unwrap_err(),
        "Invalid state: image dimensions 9000x20 exceed maximum 8192x8192"
    );
}

#[test]
fn hex_arg_is_trimmed_stripped_and_uppercased() {
    assert_eq!(normalize_hex_arg("  #ff8800 \n").unwrap(), "FF8800");
    assert_eq!(normalize_hex_arg("##0a0B0c").unwrap(), "0A0B0C");
    assert_eq!(hex_arg_body("\t##abc\u{3000}"), "abc");
}

#[test]
fn hex_arg_wrong_length_is_rejected() {
    assert_eq!(
        normalize_hex_arg("#fff").unwrap_err(),
        "Hex color must be exactly 6 characters (optionally prefixed with #)"
    );
    assert_eq!(
        normalize_hex_arg("").unwrap_err(),
        "Hex color must be exactly 6 characters (optionally prefixed with #)"
    );
}

#[test]
fn hex_arg_invalid_characters_are_rejected() {
    assert_eq!(normalize_hex_arg("#GG0000").unwrap_err(), "Hex color contains invalid characters");
    // Three two-byte characters are six bytes long but not hex digits.
    assert_eq!(check_hex6("ÉÉÉ".to_string()).unwrap_err(), "Hex color contains invalid characters");
}

#[test]
fn hex_arg_uppercasing_can_produce_digits() {
    // U+FB00 (LATIN SMALL LIGATURE FF) upper-cases to "FF".
    assert_eq!(normalize_hex_arg("\u{fb00}0000").unwrap(), "FF0000");
}

#[test]
fn stub_compiles() {
    assert!(true);
}

#[test]
fn tile_grid_at_levels() {
    assert_eq!(tile_grid(1000, 500, 256, 0), (4, 2));
    assert_eq!(tile_grid(1000, 500, 256, 1), (2, 1));
    assert_eq!(tile_span_at_level(256, 40), u32::MAX);
    assert_eq!(tile_grid(1000, 500, 256, 40), (1, 1));
    assert_eq!(tile_grid(0, 0, 256, 0), (0, 0));
    assert!(check_tile_coordinate(3, 1, 1000, 500, 256, 0).is_ok());
    assert_eq!(
        check_tile_coordinate(4, 0, 1000, 500, 256, 0).unwrap_err(),
        "404 Not Found: tile coordinate (4, 0) out of bounds for grid 4x2 at level 0"
    );
}
