use term_chat::ascii::{fit_dimensions, image_to_ascii, Image};
use term_chat::single;
use term_chat::single::Single;

/// The value of a positive or zero `f32`.
fn from_float(x: f32) -> Single {
    if x == 0.0 {
        return Single { mant: 0, exp: 0 };
    }
    let bits = x.to_bits();
    let exp = (bits >> 23) as i32;
    Single { mant: (bits & 0x7f_ffff) | 0x80_0000, exp: exp - 150 }
}

fn to_float(s: Single) -> f32 {
    (s.mant as f64 * 2f64.powi(s.exp)) as f32
}

const WHOLE: [u32; 16] = [
    1, 2, 3, 5, 7, 9, 10, 255, 399, 1000, 65_535, 16_777_215, 16_777_217, 33_554_435, 4_294_967_040,
    u32::MAX,
];

#[test]
fn whole_numbers_convert_like_floats() {
    assert_eq!(single::from_u32(0), from_float(0.0));
    for n in WHOLE {
        assert_eq!(single::from_u32(n), from_float(n as f32));
    }
}

#[test]
fn operations_round_like_floats() {
    for a in WHOLE {
        for b in WHOLE {
            let (x, y) = (single::from_u32(a), single::from_u32(b));
            let (fx, fy) = (a as f32, b as f32);
            assert_eq!(single::multiply(x, y), from_float(fx * fy));
            assert_eq!(single::divide(x, y), from_float(fx / fy));
            assert_eq!(single::less_than(x, y), fx < fy);
            assert_eq!(single::min(x, y), from_float(fx.min(fy)));
            let q = single::divide(x, y);
            assert_eq!(single::plus(q, x), from_float(fx / fy + fx));
            assert_eq!(single::round_to_u32(q), (fx / fy).round() as u32);
            assert_eq!(single::truncate_to_u32(q), (fx / fy) as u32);
        }
    }
}

#[test]
fn halves_round_away_from_zero() {
    for n in [1u32, 3, 5, 7, 9] {
        let half = single::divide(single::from_u32(n), single::from_u32(2));
        assert_eq!(single::round_to_u32(half), (n as f32 / 2.0).round() as u32);
        assert_eq!(to_float(half), n as f32 / 2.0);
    }
}

/// The same fit in floating point.
fn float_fit(cols: u16, rows: u16, iw: u32, ih: u32) -> (u32, u32) {
    let max_w = ((cols as f64 * 0.8) as usize).max(10);
    let max_h = ((rows as f64 * 0.8) as usize).max(3);
    let cell_w = iw as f32;
    let cell_h = ih as f32 / 2.0;
    let scale = (max_w as f32 / cell_w).min(max_h as f32 / cell_h).min(1.0);
    (
        ((cell_w * scale).round() as u32).max(1),
        ((cell_h * scale).round() as u32).max(1),
    )
}

#[test]
fn fit_is_that_of_floats() {
    let sizes = [1u32, 2, 3, 17, 40, 200, 399, 400, 401, 1920, 4097, 100_000, 16_777_217, u32::MAX];
    for iw in sizes {
        for ih in sizes {
            for (cols, rows) in [(0u16, 0u16), (10, 6), (60, 20), (80, 24), (120, 30), (211, 57), (65_535, 65_535)] {
                assert_eq!(fit_dimensions(cols, rows, iw, ih), float_fit(cols, rows, iw, ih));
            }
        }
    }
    for cells in 0..=u16::MAX {
        assert_eq!(fit_dimensions(cells, cells, 70_000, 140_000), float_fit(cells, cells, 70_000, 140_000));
    }
}

#[test]
fn fit_of_an_empty_image_is_that_of_floats() {
    assert_eq!(fit_dimensions(80, 24, 0, 10), float_fit(80, 24, 0, 10));
    assert_eq!(fit_dimensions(80, 24, 10, 0), float_fit(80, 24, 10, 0));
    assert_eq!(fit_dimensions(80, 24, 0, 0), (1, 1));
}

#[test]
fn fit_leaves_a_fifth_of_the_terminal_free() {
    for (cols, rows) in [(50u16, 20u16), (80, 24), (200, 60)] {
        for (iw, ih) in [(1u32, 1u32), (30, 9000), (9000, 30), (640, 480)] {
            let (w, h) = fit_dimensions(cols, rows, iw, ih);
            assert!(1 <= w && w <= cols as u32 * 4 / 5 && w <= iw);
            assert!(1 <= h && h <= rows as u32 * 4 / 5 && h <= (ih + 1) / 2);
        }
    }
}

#[test]
fn fit_keeps_the_shape_and_fills_the_room() {
    for (cols, rows) in [(50u16, 20u16), (80, 24), (200, 60)] {
        for (iw, ih) in [(1u32, 1u32), (31, 19), (30, 9000), (9000, 30), (640, 480), (u32::MAX, 7)] {
            let (w, h) = fit_dimensions(cols, rows, iw, ih);
            let own_size = (w, h) == (iw, ih / 2 + ih % 2);
            assert!(own_size || w == cols as u32 * 4 / 5 || h == rows as u32 * 4 / 5);
            let (w, h, iw, ih) = (w as i128, h as i128, iw as i128, ih as i128);
            assert!((w * ih - 2 * h * iw).abs() <= ih + 2 * iw);
        }
    }
}

/// The same art in floating point.
fn float_art(img: &Image, out_w: u32, out_h: u32) -> String {
    let ramp: Vec<char> = " .:-=+*#%@".chars().collect();
    let (w, h) = (img.width, img.height);
    if w == 0 || h == 0 || out_w == 0 || out_h == 0 {
        return String::new();
    }
    let mut out = String::new();
    for y in 0..out_h {
        let sy = ((y as f32 + 0.5) / out_h as f32 * h as f32).min((h - 1) as f32) as u32;
        for x in 0..out_w {
            let sx = ((x as f32 + 0.5) / out_w as f32 * w as f32).min((w - 1) as f32) as u32;
            let at = 4 * (sy * w + sx) as usize;
            let p = &img.pixels[at..at + 4];
            if p[3] == 0 {
                out.push(' ');
                continue;
            }
            let lum = 0.2126 * p[0] as f32 + 0.7152 * p[1] as f32 + 0.0722 * p[2] as f32;
            let idx = ((lum / 255.0) * 9.0).round() as usize;
            out.push(ramp[idx.min(9)]);
        }
        out.push('\n');
    }
    out
}

fn noise(width: u32, height: u32, seed: u32) -> Image {
    let mut state = seed;
    let mut pixels = Vec::new();
    for _ in 0..4 * width * height {
        state = state.wrapping_mul(1_664_525).wrapping_add(1_013_904_223);
        pixels.push((state >> 24) as u8);
    }
    Image { width, height, pixels }
}

#[test]
fn art_is_that_of_floats() {
    for (w, h, ow, oh) in [(1u32, 1u32, 1u32, 1u32), (7, 5, 3, 2), (64, 48, 31, 17), (33, 90, 33, 45), (5, 5, 20, 20)] {
        let img = noise(w, h, w * 31 + h);
        assert_eq!(image_to_ascii(&img, ow, oh), float_art(&img, ow, oh));
    }
    // Every grey value.
    let mut pixels = Vec::new();
    for g in 0..=255u8 {
        pixels.extend_from_slice(&[g, g, g, 255]);
    }
    let img = Image { width: 256, height: 1, pixels };
    assert_eq!(image_to_ascii(&img, 256, 1), float_art(&img, 256, 1));
}

#[test]
fn art_has_a_line_for_each_row_and_blanks_for_glass() {
    let img = Image { width: 2, height: 1, pixels: vec![255, 255, 255, 255, 255, 255, 255, 0] };
    assert_eq!(image_to_ascii(&img, 2, 2), "@ \n@ \n");
    assert_eq!(image_to_ascii(&img, 0, 2), "");
    assert_eq!(image_to_ascii(&Image { width: 0, height: 0, pixels: vec![] }, 3, 3), "");
}
