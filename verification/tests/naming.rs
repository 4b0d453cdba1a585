use png2tileset::naming::{decimal_text, default_output_name, output_name};

#[test]
fn numbers_are_written_in_decimal() {
    assert_eq!(decimal_text(0), "0");
    assert_eq!(decimal_text(7), "7");
    assert_eq!(decimal_text(10), "10");
    assert_eq!(decimal_text(16), "16");
    assert_eq!(decimal_text(1234567890), "1234567890");
    assert_eq!(decimal_text(u32::MAX), "4294967295");
    for n in [9u32, 99, 100, 101, 4096, 65535, 1000000] {
        assert_eq!(decimal_text(n), n.to_string());
    }
}

#[test]
fn default_name_is_built_from_stem_and_tile_size() {
    assert_eq!(default_output_name(Some("3"), 16), "3-tileset-16x16.png");
    assert_eq!(default_output_name(Some("world map"), 8), "world map-tileset-8x8.png");
    assert_eq!(default_output_name(Some(""), 4), "-tileset-4x4.png");
}

#[test]
fn missing_stem_falls_back_to_my() {
    assert_eq!(default_output_name(None, 8), "my-tileset-8x8.png");
    assert_eq!(output_name(None, None, 32), "my-tileset-32x32.png");
}

#[test]
fn custom_name_overrides_the_default() {
    assert_eq!(output_name(Some("custom-tileset-name.png"), Some("3"), 4), "custom-tileset-name.png");
    assert_eq!(output_name(Some("out"), None, 4), "out");
    assert_eq!(output_name(None, Some("3"), 4), "3-tileset-4x4.png");
}
