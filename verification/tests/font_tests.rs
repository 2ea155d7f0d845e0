use tide_clock::display::{pixel_black, pixel_white, ExtremeLabel, PixelBuffer, Position};
use tide_clock::font::{Font5, Glyph};
use tide_clock::tides::{ExtremeKind, TideExtremesData, TideHeightData, TideModel, TideResponse};

fn solid_glyph(ch: char, width: u32, height: u32) -> Glyph {
    let mut pixels = Vec::new();
    for _ in 0..width * height {
        pixels.push(pixel_white());
    }
    Glyph { ch, width, height, pixels }
}

#[test]
fn lookup_returns_first_match_or_none() {
    let font = Font5 {
        faces: vec![solid_glyph('A', 3, 5), solid_glyph('B', 4, 5), solid_glyph('A', 1, 5)],
    };
    let a = font.get('A').expect("glyph for A");
    assert_eq!(a.width, 3);
    let b = font.get('B').expect("glyph for B");
    assert_eq!(b.width, 4);
    assert!(font.get('z').is_none());
}

#[test]
fn malformed_fonts_fail_the_runtime_check() {
    let good = Font5 { faces: vec![solid_glyph('A', 3, 5)] };
    assert!(good.check_wf());

    let mut bad_glyph = solid_glyph('A', 3, 5);
    bad_glyph.pixels.pop();
    let bad = Font5 { faces: vec![bad_glyph] };
    assert!(!bad.check_wf());

    let too_wide = Font5 { faces: vec![solid_glyph('A', 40, 5)] };
    assert!(!too_wide.check_wf());

    let empty = Font5::new();
    assert!(empty.check_wf());
}

#[test]
fn extreme_labels_read_as_clock_text() {
    // The label text comes from the wall clock, whose exact value
    // depends on the machine's time zone: what must always hold is the
    // HH:MM shape with in-range digits.
    let data = TideResponse {
        station: String::new(),
        heights: vec![
            TideHeightData { dt: 1000, date: 1000, height: 0 },
            TideHeightData { dt: 2000, date: 2000, height: 500 },
        ],
        extremes: vec![TideExtremesData {
            dt: 1500,
            date: 1500,
            height: 700,
            extreme_type: ExtremeKind::High,
        }],
    };
    let model = TideModel::new(data);
    let e = model.extremes[0];
    let font = Font5 { faces: vec![solid_glyph('0', 3, 5)] };
    let label = ExtremeLabel::new(&font, &e, 7, &Position { x: 21, y: 0 });
    assert_eq!(label.text_field.pos.x, 28);
    assert_eq!(label.text_field.pos.y, 0);
    let text = &label.text_field.text;
    assert_eq!(text.len(), 5);
    assert_eq!(text[2], ':');
    for i in [0usize, 1, 3, 4] {
        assert!(text[i].is_ascii_digit(), "position {} of the label", i);
    }
    let hour = text[0].to_digit(10).unwrap() * 10 + text[1].to_digit(10).unwrap();
    let minute = text[3].to_digit(10).unwrap() * 10 + text[4].to_digit(10).unwrap();
    assert!(hour < 24);
    assert!(minute < 60);
}

#[test]
fn label_paint_draws_underline_and_descender() {
    // A 1x1 glyph at the top-left; the underline sits two rows below the
    // text, and the descender runs from it down toward the first
    // foreground pixel found scanning up from the bottom.
    let font = Font5 { faces: vec![solid_glyph(':', 1, 1)] };
    let mut buffer = PixelBuffer::new();
    // Waveform stand-in: foreground from row 20 down in column 0.
    for y in 20..32u32 {
        buffer.put_pixel(0, y, pixel_white());
    }
    let label = ExtremeLabel {
        text_field: tide_clock::display::TextField::new(vec![':'], &font, 0, 0),
    };
    label.paint(&mut buffer, &font);
    // Glyph pixel.
    assert_eq!(buffer.get_pixel(0, 0), pixel_white());
    // Underline spans width - 1 = 1 pixel at row height + 2 = 3.
    assert_eq!(buffer.get_pixel(0, 3), pixel_white());
    assert_eq!(buffer.get_pixel(1, 3), pixel_black());
    // Scanning up from the bottom, the first background row is 19, so
    // the descender covers rows 3..18.
    for y in 4..18u32 {
        assert_eq!(buffer.get_pixel(0, y), pixel_white(), "descender row {}", y);
    }
    assert_eq!(buffer.get_pixel(0, 18), pixel_black());
    assert_eq!(buffer.get_pixel(0, 19), pixel_black());
    assert_eq!(buffer.get_pixel(0, 20), pixel_white());
}
