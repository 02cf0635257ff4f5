use lumia_viewer::colors::{accent_color, parse_color, parse_hex_color, ThemeAccent};

#[test]
fn plugin_color_parser_accepts_css_hex() {
    assert_eq!(parse_color("#ff3b30"), Some(0xff3b30));
    assert_eq!(parse_color("ff3b30"), None);
}

#[test]
fn marker_colors_parse_only_six_digit_hex() {
    assert_eq!(parse_hex_color("#ff3b30"), Some(0xff3b30));
    assert_eq!(parse_hex_color("ff3b30"), None);
    assert_eq!(parse_hex_color("#bad"), None);
}

#[test]
fn plugin_color_parser_rejects_non_hex_digits() {
    assert_eq!(parse_color("#zz0000"), None);
    assert_eq!(parse_hex_color("#12345g"), None);
    assert_eq!(parse_hex_color("#ABCDEF"), Some(0xabcdef));
}

#[test]
fn accent_colors_use_named_palette_values() {
    assert_eq!(accent_color(ThemeAccent::Blue), 0x2389da);
    assert_eq!(accent_color(ThemeAccent::Green), 0x2a9d8f);
    assert_eq!(accent_color(ThemeAccent::Orange), 0xf2a900);
    assert_eq!(accent_color(ThemeAccent::Rose), 0xe56b8c);
}

#[test]
fn marker_colors_take_six_digits_and_control_colors_read_like_from_str_radix() {
    assert_eq!(parse_hex_color("#+12345"), None);
    assert_eq!(parse_color("#+ff"), Some(0xff));
    assert_eq!(parse_color("#+"), None);
    assert_eq!(parse_color("#-ff"), None);
    assert_eq!(parse_color("#"), None);
    assert_eq!(parse_color("#fff"), Some(0xfff));
}
