use tide_clock::display::{
    calculate_pixel, flood_fill_mask, pixel_black, pixel_white, should_erase, Bounds, GraphCanvas,
    PixelBuffer, Position, RenderDevice, TextField, WaterMark,
};
use tide_clock::font::{Font5, Glyph};
use tide_clock::maths::Frac;
use tide_clock::tides::{TideModel, TideModelWindow, TideResponse, WaterMarkData};

fn frac(num: i64, den: i64) -> Frac {
    Frac { num, den }
}

#[test]
fn test_should_erase() {
    let kernel = [0, 1, 1, 1, 1, 1, 1, 1, 1];

    assert_eq!(should_erase(kernel, &flood_fill_mask()), true);

    let kernel = [1, 1, 0, 1, 1, 1, 1, 1, 1];
    assert_eq!(should_erase(kernel, &flood_fill_mask()), true);
}

#[test]
fn test_calculate_pixel() {
    // 0 0 0 1
    // 0 0 1 1
    // 0 1 1 1
    // 1 1 1 1
    let normalized_heights = vec![frac(1, 4), frac(2, 4), frac(3, 4), frac(4, 4)];
    let bounds = Bounds { w: 4, h: 4 };

    assert_eq!(calculate_pixel(&normalized_heights, &bounds, 0, 0), 0);
    assert_eq!(calculate_pixel(&normalized_heights, &bounds, 1, 0), 0);
    assert_eq!(calculate_pixel(&normalized_heights, &bounds, 2, 0), 0);
    assert_eq!(calculate_pixel(&normalized_heights, &bounds, 3, 0), 1);
    assert_eq!(calculate_pixel(&normalized_heights, &bounds, 0, 1), 0);
    assert_eq!(calculate_pixel(&normalized_heights, &bounds, 1, 1), 0);
    assert_eq!(calculate_pixel(&normalized_heights, &bounds, 2, 1), 1);
    assert_eq!(calculate_pixel(&normalized_heights, &bounds, 3, 1), 1);
    assert_eq!(calculate_pixel(&normalized_heights, &bounds, 0, 2), 0);
    assert_eq!(calculate_pixel(&normalized_heights, &bounds, 1, 2), 1);
    assert_eq!(calculate_pixel(&normalized_heights, &bounds, 2, 2), 1);
    assert_eq!(calculate_pixel(&normalized_heights, &bounds, 3, 2), 1);
    assert_eq!(calculate_pixel(&normalized_heights, &bounds, 0, 3), 1);
    assert_eq!(calculate_pixel(&normalized_heights, &bounds, 1, 3), 1);
    assert_eq!(calculate_pixel(&normalized_heights, &bounds, 2, 3), 1);
    assert_eq!(calculate_pixel(&normalized_heights, &bounds, 3, 3), 1);

    // 0 0 0 0 0 1
    // 0 0 0 0 0 1
    // 0 0 0 0 1 1
    // 0 0 0 0 1 1
    // 0 0 0 1 1 1
    // 0 0 0 1 1 1
    // 0 0 1 1 1 1
    // 0 0 1 1 1 1
    // 0 1 1 1 1 1
    // 0 1 1 1 1 1
    let normalized_heights = vec![
        frac(0, 5),
        frac(1, 5),
        frac(2, 5),
        frac(3, 5),
        frac(4, 5),
        frac(5, 5),
    ];
    let bounds = Bounds { w: 6, h: 10 };

    assert_eq!(calculate_pixel(&normalized_heights, &bounds, -1, 8), 1);
    assert_eq!(calculate_pixel(&normalized_heights, &bounds, 0, 8), 0);
    assert_eq!(calculate_pixel(&normalized_heights, &bounds, 1, 8), 1);
    assert_eq!(calculate_pixel(&normalized_heights, &bounds, -1, 9), 1);
    assert_eq!(calculate_pixel(&normalized_heights, &bounds, 0, 9), 0);
    assert_eq!(calculate_pixel(&normalized_heights, &bounds, 1, 9), 1);
    assert_eq!(calculate_pixel(&normalized_heights, &bounds, -1, 10), 1);
    assert_eq!(calculate_pixel(&normalized_heights, &bounds, 0, 10), 1);
    assert_eq!(calculate_pixel(&normalized_heights, &bounds, 1, 10), 1);

    assert_eq!(calculate_pixel(&normalized_heights, &bounds, 4, 0), 0);
    assert_eq!(calculate_pixel(&normalized_heights, &bounds, 5, 0), 1);
    assert_eq!(calculate_pixel(&normalized_heights, &bounds, 6, 0), 1);
    assert_eq!(calculate_pixel(&normalized_heights, &bounds, 4, 1), 0);
    assert_eq!(calculate_pixel(&normalized_heights, &bounds, 5, 1), 1);
    assert_eq!(calculate_pixel(&normalized_heights, &bounds, 6, 1), 1);
    assert_eq!(calculate_pixel(&normalized_heights, &bounds, 4, 2), 1);
    assert_eq!(calculate_pixel(&normalized_heights, &bounds, 5, 2), 1);
    assert_eq!(calculate_pixel(&normalized_heights, &bounds, 6, 2), 1);
}

#[test]
fn erase_rule_examples() {
    let mask = flood_fill_mask();
    // A neighborhood that carries every bit the mask demands survives the
    // erosion test, so the past-erase pass must NOT erase that pixel.
    let survivor = [0, 1, 1, 1, 1, 1, 1, 1, 1];
    assert!(should_erase(survivor, &mask));

    // One with a demanded bit missing fails the test and MUST be erased.
    let eroded = [0, 0, 0, 1, 1, 1, 1, 1, 1];
    assert!(!should_erase(eroded, &mask));
}

#[test]
fn pixel_buffer_starts_black_and_stores_writes() {
    let mut buffer = PixelBuffer::new();
    assert_eq!(buffer.get_pixel(0, 0), pixel_black());
    assert_eq!(buffer.get_pixel(127, 31), pixel_black());
    buffer.put_pixel(5, 7, pixel_white());
    assert_eq!(buffer.get_pixel(5, 7), pixel_white());
    assert_eq!(buffer.get_pixel(5, 8), pixel_black());
    assert_eq!(buffer.get_pixel(6, 7), pixel_black());
}

fn empty_window_with(heights: Vec<Frac>) -> TideModelWindow {
    TideModelWindow {
        water_mark: WaterMarkData { high_water: 0, low_water: 0, current_water: 2 },
        normalised_heights: heights,
        dates: Vec::new(),
        extremes: Vec::new(),
        start_index: 0,
    }
}

#[test]
fn waveform_fills_rows_from_surface_down() {
    // Normalized heights 1/4, 2/4, 3/4, 4/4 in a 4x4 region must fill
    // rows {3}, {2,3}, {1,2,3}, {0,1,2,3} of columns 0..3.
    let heights = vec![frac(1, 4), frac(2, 4), frac(3, 4), frac(4, 4)];
    let mut window = empty_window_with(heights);
    // Window lengths must align for the window to be well formed.
    window.dates = vec![0, 3600, 7200, 10800];
    let canvas = GraphCanvas::new(0, 0, 4, 4);
    let mut buffer = PixelBuffer::new();
    let font = Font5::new();
    // `now` far from the series: the play head lands on the last sample.
    canvas.paint(&mut buffer, &window, &font, 0);
    // The play head sits at column 0 (nearest sample to t=0) and the
    // erase pass covers nothing left of it, so the waveform rows of
    // columns 1..3 are intact; column 0 carries the dashed play head.
    for (x, first_filled_row) in [(1u32, 2u32), (2, 1), (3, 0)] {
        for y in 0..4u32 {
            let expected = if y >= first_filled_row { pixel_white() } else { pixel_black() };
            assert_eq!(buffer.get_pixel(x, y), expected, "column {} row {}", x, y);
        }
    }
    // Dashed play head at column 0 spans the full device height.
    for y in 0..32u32 {
        let expected = if y % 2 == 0 { pixel_white() } else { pixel_black() };
        assert_eq!(buffer.get_pixel(0, y), expected, "play head row {}", y);
    }
}

#[test]
fn play_head_spans_the_full_device_height() {
    // A graph region that starts well below the top: the play head must
    // still dash every device row of its column, not just the region's.
    let heights = vec![frac(1, 4), frac(2, 4), frac(3, 4), frac(4, 4)];
    let mut window = empty_window_with(heights);
    window.dates = vec![0, 3600, 7200, 10800];
    let canvas = GraphCanvas::new(0, 10, 4, 4);
    let mut buffer = PixelBuffer::new();
    let font = Font5::new();
    canvas.paint(&mut buffer, &window, &font, 0);
    for y in 0..32u32 {
        let expected = if y % 2 == 0 { pixel_white() } else { pixel_black() };
        assert_eq!(buffer.get_pixel(0, y), expected, "play head row {}", y);
    }
}

#[test]
fn composed_frame_carries_gauge_and_graph() {
    // The whole-frame compositor on an empty model: the gauge's bar
    // column is lit, the play-head column stays dark (no samples), and
    // negative instants are accepted (the separator parity is defined
    // for them too).
    let model = TideModel::new(TideResponse::nil());
    let (window, _f) = model.get_window(-3);
    let font = Font5::new();
    let frame = tide_clock::display::compose_frame(&font, &model, &window, -3);
    for y in 10..32u32 {
        assert_eq!(frame.get_pixel(18, y), pixel_white(), "gauge bar row {}", y);
    }
    // Empty series: the graph region is solid (out-of-series columns
    // count as filled), and no play head is drawn.
    assert_eq!(frame.get_pixel(21, 10), pixel_white());
    assert_eq!(frame.get_pixel(0, 31), pixel_black());
}

struct CountingSink {
    frames: usize,
}

impl RenderDevice for CountingSink {
    fn render(&mut self, buffer: &PixelBuffer) {
        // A full frame: every canvas cell present exactly once.
        assert_eq!(buffer.data.len(), 128 * 32);
        self.frames += 1;
    }
}

#[test]
fn empty_series_renders_blank_frame() {
    // End to end on zero samples: the model degrades, nothing crashes,
    // and a full in-bounds frame reaches the sink.
    let model = TideModel::new(TideResponse::nil());
    assert!(model.get_date_range().is_none());
    let sentinel = model.get_current_norm_height(1_600_000_000);
    assert!(sentinel.num < 0, "sentinel must lie below the valid range");
    assert_eq!(sentinel.num, -10);
    assert_eq!(sentinel.den, 1);

    let (window, _freshness) = model.get_window(1_600_000_000);
    let font = Font5::new();
    let mut sink = CountingSink { frames: 0 };
    tide_clock::display::paint(&mut sink, &font, &model, &window, 1_600_000_000);
    assert_eq!(sink.frames, 1);
}

#[test]
fn text_field_measures_and_blits() {
    // One 2x5 glyph; white left column, black right column.
    let mut pixels = Vec::new();
    for _row in 0..5 {
        pixels.push(pixel_white());
        pixels.push(pixel_black());
    }
    let font = Font5 {
        faces: vec![Glyph { ch: 'A', width: 2, height: 5, pixels }],
    };
    assert!(font.check_wf());

    let tf = TextField::new(vec!['A', 'A'], &font, 0, 0);
    assert_eq!(tf.bounds.w, 6); // (2 + 1) per glyph
    assert_eq!(tf.bounds.h, 5);

    // Unknown characters contribute nothing.
    let tf2 = TextField::new(vec!['A', 'z', 'A'], &font, 0, 0);
    assert_eq!(tf2.bounds.w, 6);
    assert_eq!(tf2.bounds.h, 5);

    let mut buffer = PixelBuffer::new();
    buffer.put_pixel(1, 0, pixel_white()); // gets overwritten by the glyph's black column
    tf.paint(&mut buffer, &font);
    assert_eq!(buffer.get_pixel(0, 0), pixel_white());
    assert_eq!(buffer.get_pixel(1, 0), pixel_black());
    assert_eq!(buffer.get_pixel(2, 0), pixel_black()); // 1px gap untouched
    assert_eq!(buffer.get_pixel(3, 0), pixel_white()); // second glyph
    assert_eq!(buffer.get_pixel(4, 0), pixel_black());
    assert_eq!(buffer.get_pixel(0, 4), pixel_white());
    assert_eq!(buffer.get_pixel(0, 5), pixel_black()); // below glyph height
}

#[test]
fn centered_banner_lands_mid_canvas() {
    let mut pixels = Vec::new();
    for _ in 0..5 {
        pixels.push(pixel_white());
    }
    let font = Font5 {
        faces: vec![Glyph { ch: 'I', width: 1, height: 5, pixels }],
    };
    let mut buffer = PixelBuffer::new();
    // Width of "I" is 2, so the caret starts at 64 - 1 = 63.
    tide_clock::display::render(&vec!['I'], &font, &mut buffer);
    assert_eq!(buffer.get_pixel(63, 13), pixel_white());
    assert_eq!(buffer.get_pixel(63, 17), pixel_white());
    assert_eq!(buffer.get_pixel(63, 18), pixel_black());
    assert_eq!(buffer.get_pixel(62, 13), pixel_black());
    assert_eq!(buffer.get_pixel(64, 13), pixel_black());
}

#[test]
fn position_and_bounds_hold_their_fields() {
    let p = Position { x: 3, y: 9 };
    let b = Bounds { w: 107, h: 22 };
    assert_eq!(p.x, 3);
    assert_eq!(p.y, 9);
    assert_eq!(b.w, 107);
    assert_eq!(b.h, 22);
}

#[test]
fn water_mark_gauge_marks_the_sentinel_at_the_bottom_cap() {
    // Empty model: the sentinel saturates to the bar's bottom row, which
    // is an end cap, so the mark shifts one pixel left.
    let model = TideModel::new(TideResponse::nil());
    let gauge = WaterMark::new(17, 10, 2, 22);
    let mut buffer = PixelBuffer::new();
    gauge.paint(&mut buffer, &model, 0);
    // End caps.
    assert_eq!(buffer.get_pixel(17, 10), pixel_white());
    assert_eq!(buffer.get_pixel(17, 31), pixel_white());
    // The bar's right column.
    for y in 10..32u32 {
        assert_eq!(buffer.get_pixel(18, y), pixel_white(), "bar row {}", y);
    }
    // The shifted mark, and nothing above it in that column.
    assert_eq!(buffer.get_pixel(16, 31), pixel_white());
    assert_eq!(buffer.get_pixel(16, 30), pixel_black());
    assert_eq!(buffer.get_pixel(17, 30), pixel_black());
}
