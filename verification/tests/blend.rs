use hex_colours::{hexstring_to_rgb, rgb_blend, rgb_to_hexstring, ColorError, RGB};

fn decode_all(texts: &[&str]) -> Vec<RGB> {
    texts.iter().map(|t| hexstring_to_rgb(t).unwrap()).collect()
}

#[test]
fn blends_black_and_slate_grey() {
    let colours = decode_all(&["#000000", "#778899"]);
    let mean = rgb_blend(&colours).unwrap();
    assert_eq!(mean, RGB { r: 0x3B, g: 0x44, b: 0x4C });
    assert_eq!(rgb_to_hexstring(&mean), "#3B444C");
}

#[test]
fn blends_three_pastels() {
    let colours = decode_all(&["#E6E6FA", "#FF69B4", "#B0C4DE"]);
    let mean = rgb_blend(&colours).unwrap();
    assert_eq!(rgb_to_hexstring(&mean), "#DCB1D9");
}

#[test]
fn blend_of_nothing_is_an_error() {
    assert_eq!(rgb_blend(&[]), Err(ColorError::EmptyBlendSet));
}

#[test]
fn blend_of_one_colour_is_that_colour() {
    for r in (0..=255u8).step_by(5) {
        for g in (0..=255u8).step_by(51) {
            for b in (0..=255u8).step_by(85) {
                let c = RGB { r, g, b };
                assert_eq!(rgb_blend(&[c]), Ok(c));
            }
        }
    }
}

#[test]
fn blend_rounds_each_mean_down() {
    let zero = RGB { r: 0, g: 0, b: 0 };
    let one = RGB { r: 1, g: 1, b: 1 };
    assert_eq!(rgb_blend(&[zero, one]), Ok(zero));
    assert_eq!(rgb_blend(&[zero, one, one]), Ok(zero));
    assert_eq!(rgb_blend(&[one, one, one]), Ok(one));
    let c = RGB { r: 255, g: 254, b: 1 };
    let d = RGB { r: 254, g: 255, b: 2 };
    assert_eq!(rgb_blend(&[c, d]), Ok(RGB { r: 254, g: 254, b: 1 }));
}

#[test]
fn blend_treats_channels_independently() {
    let a = RGB { r: 10, g: 200, b: 0 };
    let b = RGB { r: 20, g: 100, b: 255 };
    let c = RGB { r: 33, g: 0, b: 255 };
    // Sums 63, 300 and 510 over three colours.
    assert_eq!(rgb_blend(&[a, b, c]), Ok(RGB { r: 21, g: 100, b: 170 }));
}

#[test]
fn blend_does_not_depend_on_order() {
    let a = RGB { r: 230, g: 230, b: 250 };
    let b = RGB { r: 255, g: 105, b: 180 };
    let c = RGB { r: 176, g: 196, b: 222 };
    let d = RGB { r: 1, g: 2, b: 3 };
    let expected = rgb_blend(&[a, b, c, d]);
    assert_eq!(expected, Ok(RGB { r: 165, g: 133, b: 163 }));
    for order in [
        [a, b, d, c],
        [a, c, b, d],
        [b, a, c, d],
        [d, c, b, a],
        [c, d, a, b],
        [b, d, a, c],
    ] {
        assert_eq!(rgb_blend(&order), expected);
    }
}

#[test]
fn blend_counts_repeated_colours() {
    let dark = RGB { r: 0, g: 0, b: 0 };
    let light = RGB { r: 255, g: 255, b: 255 };
    assert_eq!(rgb_blend(&[dark, light, light, light]), Ok(RGB { r: 191, g: 191, b: 191 }));
    assert_eq!(rgb_blend(&[light, dark, dark, dark]), Ok(RGB { r: 63, g: 63, b: 63 }));
}

#[test]
fn blend_of_many_colours_does_not_overflow() {
    let white = RGB { r: 255, g: 255, b: 255 };
    let many = vec![white; 300_000];
    assert_eq!(rgb_blend(&many), Ok(white));
    let mut nearly = many;
    nearly[12_345] = RGB { r: 254, g: 255, b: 0 };
    assert_eq!(rgb_blend(&nearly), Ok(RGB { r: 254, g: 255, b: 254 }));
}

#[test]
fn blending_twice_gives_the_same_colour() {
    let colours = decode_all(&["#E6E6FA", "#FF69B4", "#B0C4DE"]);
    assert_eq!(rgb_blend(&colours), rgb_blend(&colours));
}
