use hex_colours::{int_to_hexstring, rgb_to_hexstring, rgb_to_rgbint, RGB};

fn is_upper_hex(c: char) -> bool {
    ('0'..='9').contains(&c) || ('A'..='F').contains(&c)
}

#[test]
fn encodes_tomato() {
    assert_eq!(rgb_to_hexstring(&RGB { r: 255, g: 99, b: 71 }), "#FF6347");
}

#[test]
fn encodes_dark_goldenrod() {
    assert_eq!(rgb_to_hexstring(&RGB { r: 184, g: 134, b: 11 }), "#B8860B");
}

#[test]
fn encodes_dark_khaki() {
    assert_eq!(rgb_to_hexstring(&RGB { r: 189, g: 183, b: 107 }), "#BDB76B");
}

#[test]
fn encodes_medium_blue() {
    assert_eq!(rgb_to_hexstring(&RGB { r: 0, g: 0, b: 205 }), "#0000CD");
}

#[test]
fn encodes_black_with_all_zeros() {
    assert_eq!(rgb_to_hexstring(&RGB { r: 0, g: 0, b: 0 }), "#000000");
}

#[test]
fn encodes_white_with_all_fs() {
    assert_eq!(rgb_to_hexstring(&RGB { r: 255, g: 255, b: 255 }), "#FFFFFF");
}

#[test]
fn encodes_each_channel_in_its_own_pair() {
    assert_eq!(rgb_to_hexstring(&RGB { r: 0x0A, g: 0, b: 0 }), "#0A0000");
    assert_eq!(rgb_to_hexstring(&RGB { r: 0, g: 0xB0, b: 0 }), "#00B000");
    assert_eq!(rgb_to_hexstring(&RGB { r: 0, g: 0, b: 0x9F }), "#00009F");
    assert_eq!(rgb_to_hexstring(&RGB { r: 0x12, g: 0x34, b: 0x56 }), "#123456");
}

#[test]
fn encoded_text_has_the_hex_colour_form() {
    for r in 0..=255u8 {
        for g in (0..=255u8).step_by(17) {
            for b in (0..=255u8).step_by(15) {
                let text = rgb_to_hexstring(&RGB { r, g, b });
                assert_eq!(text.len(), 7);
                let mut chars = text.chars();
                assert_eq!(chars.next(), Some('#'));
                assert!(chars.all(is_upper_hex), "{}", text);
            }
        }
    }
}

#[test]
fn encoding_twice_gives_the_same_text() {
    let c = RGB { r: 17, g: 200, b: 3 };
    let first = rgb_to_hexstring(&c);
    let second = rgb_to_hexstring(&c);
    assert_eq!(first, second);
    assert_eq!(first, "#11C803");
}

#[test]
fn packs_red_highest() {
    assert_eq!(rgb_to_rgbint(&RGB { r: 255, g: 99, b: 71 }), 0xFF6347);
    assert_eq!(rgb_to_rgbint(&RGB { r: 1, g: 0, b: 0 }), 0x010000);
    assert_eq!(rgb_to_rgbint(&RGB { r: 0, g: 1, b: 0 }), 0x000100);
    assert_eq!(rgb_to_rgbint(&RGB { r: 0, g: 0, b: 1 }), 0x000001);
    assert_eq!(rgb_to_rgbint(&RGB { r: 0, g: 0, b: 0 }), 0);
    assert_eq!(rgb_to_rgbint(&RGB { r: 255, g: 255, b: 255 }), 0xFFFFFF);
}

#[test]
fn packing_matches_the_weighted_sum() {
    for r in (0..=255u32).step_by(5) {
        for g in (0..=255u32).step_by(3) {
            for b in (0..=255u32).step_by(7) {
                let c = RGB { r: r as u8, g: g as u8, b: b as u8 };
                assert_eq!(rgb_to_rgbint(&c), r * 65536 + g * 256 + b);
            }
        }
    }
}

#[test]
fn number_text_is_padded_to_six_digits() {
    assert_eq!(int_to_hexstring(0), "#000000");
    assert_eq!(int_to_hexstring(1), "#000001");
    assert_eq!(int_to_hexstring(0xF), "#00000F");
    assert_eq!(int_to_hexstring(0x10), "#000010");
    assert_eq!(int_to_hexstring(0xABC), "#000ABC");
    assert_eq!(int_to_hexstring(0xFFFFFF), "#FFFFFF");
}

#[test]
fn number_text_keeps_digits_beyond_six() {
    assert_eq!(int_to_hexstring(0x1000000), "#1000000");
    assert_eq!(int_to_hexstring(0x1234567), "#1234567");
    assert_eq!(int_to_hexstring(0x10000000), "#10000000");
    assert_eq!(int_to_hexstring(u32::MAX), "#FFFFFFFF");
}

#[test]
fn number_text_agrees_with_std_formatting() {
    let mut n: u32 = 0;
    loop {
        assert_eq!(int_to_hexstring(n), format!("#{:06X}", n));
        match n.checked_add(0x0001_0F3B) {
            Some(next) => n = next,
            None => break,
        }
    }
    for shift in 0..32 {
        let n = 1u32 << shift;
        assert_eq!(int_to_hexstring(n), format!("#{:06X}", n));
        assert_eq!(int_to_hexstring(n - 1), format!("#{:06X}", n - 1));
    }
}

#[test]
fn colour_text_is_the_text_of_the_packed_number() {
    for &(r, g, b) in &[(0u8, 0u8, 0u8), (255, 255, 255), (1, 2, 3), (16, 32, 48), (9, 10, 159)] {
        let c = RGB { r, g, b };
        assert_eq!(rgb_to_hexstring(&c), int_to_hexstring(rgb_to_rgbint(&c)));
    }
}

#[test]
fn number_text_reads_back_as_the_number() {
    for n in [0u32, 9, 10, 15, 16, 255, 256, 0xFFFFF, 0x100000, 0xFFFFFF, 0x1000000, 0xDEADBEEF] {
        let text = int_to_hexstring(n);
        assert!(text.starts_with('#'));
        let digits = &text[1..];
        assert!(digits.len() >= 6);
        assert!(digits.chars().all(is_upper_hex));
        assert_eq!(u32::from_str_radix(digits, 16), Ok(n));
        if digits.len() > 6 {
            assert!(!digits.starts_with('0'));
        }
    }
}
