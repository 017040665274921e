use editor_core::editor::Editor;
use editor_core::render::css_color;
use editor_core::text::{decimal_i32, lower_hex6, upper_hex8};

#[test]
fn upper_hex8_pads_and_uses_capitals() {
    assert_eq!(upper_hex8(0), "00000000");
    assert_eq!(upper_hex8(0x00FF00FF), "00FF00FF");
    assert_eq!(upper_hex8(0xDEADBEEF), "DEADBEEF");
    assert_eq!(upper_hex8(0x1234_5678), "12345678");
    assert_eq!(upper_hex8(u32::MAX), "FFFFFFFF");
    assert_eq!(upper_hex8(0xA), "0000000A");
    assert_eq!(upper_hex8(0x9ABC_DEF0), format!("{:08X}", 0x9ABC_DEF0u32));
}

#[test]
fn lower_hex6_drops_the_high_byte() {
    assert_eq!(lower_hex6(0), "000000");
    assert_eq!(lower_hex6(0xFF12ABCD), "12abcd");
    assert_eq!(lower_hex6(0x00000F), "00000f");
    assert_eq!(lower_hex6(0x89ABCDEF), format!("{:06x}", 0x89ABCDEFu32 & 0xFFFFFF));
}

#[test]
fn css_color_has_a_hash_and_six_digits() {
    assert_eq!(css_color(0xFFFFFFFF), "#ffffff");
    assert_eq!(css_color(0x00FF8000), "#ff8000");
    assert_eq!(css_color(0x12000001), "#000001");
    assert_eq!(css_color(0), "#000000");
}

#[test]
fn decimal_i32_matches_the_usual_numerals() {
    assert_eq!(decimal_i32(0), "0");
    assert_eq!(decimal_i32(7), "7");
    assert_eq!(decimal_i32(10), "10");
    assert_eq!(decimal_i32(100), "100");
    assert_eq!(decimal_i32(-1), "-1");
    assert_eq!(decimal_i32(-120), "-120");
    assert_eq!(decimal_i32(i32::MAX), "2147483647");
    assert_eq!(decimal_i32(i32::MIN), "-2147483648");
    for v in [-99999, -10, 9, 11, 1000, 123456789] {
        assert_eq!(decimal_i32(v), v.to_string());
    }
}

#[test]
fn new_editor_draws_the_greeting() {
    let editor = Editor::new();
    assert_eq!(editor.text_nodes().len(), 1);
    let first = &editor.text_nodes()[0];
    assert_eq!(first.content, "Hello Turbo!");
    assert_eq!((first.x, first.y), (100, 100));
    assert_eq!(first.color, "#FFFFFF");
    assert_eq!(first.font_size, 24);
    assert_eq!(
        editor.generate_turbo_code(),
        "turbo::go! {\n    text!(\"Hello Turbo!\", x = 100, y = 100, color = 0xFFFFFFFF);\n}\n"
    );
}

#[test]
fn added_labels_follow_in_order() {
    let mut editor = Editor::new();
    editor.add_text_node("Second", -5, 0);
    editor.add_text_node("", i32::MAX, i32::MIN);
    assert_eq!(editor.text_nodes().len(), 3);
    let second = &editor.text_nodes()[1];
    assert_eq!(second.content, "Second");
    assert_eq!((second.x, second.y), (-5, 0));
    assert_eq!(second.color, "#FFFFFF");
    assert_eq!(second.font_size, 16);
    let expected = "turbo::go! {\n    text!(\"Hello Turbo!\", x = 100, y = 100, color = 0xFFFFFFFF);\n    text!(\"Second\", x = -5, y = 0, color = 0xFFFFFFFF);\n    text!(\"\", x = 2147483647, y = -2147483648, color = 0xFFFFFFFF);\n}\n";
    assert_eq!(editor.generate_turbo_code(), expected);
}
