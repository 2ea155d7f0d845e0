use tide_clock::maths::Frac;
use tide_clock::tides::{
    find_abs_diff, DataFreshness, ExtremeKind, TideExtremesData, TideHeightData, TideModel,
    TideResponse,
};

fn sample(dt: u32, date: i64, height: i32) -> TideHeightData {
    TideHeightData { dt, date, height }
}

fn extreme(dt: u32, date: i64, height: i32, kind: ExtremeKind) -> TideExtremesData {
    TideExtremesData { dt, date, height, extreme_type: kind }
}

fn response(heights: Vec<TideHeightData>, extremes: Vec<TideExtremesData>) -> TideResponse {
    TideResponse { station: String::from("Exmouth Dock"), heights, extremes }
}

fn hourly_response(start: i64, n: u32) -> TideResponse {
    let mut heights = Vec::new();
    for i in 0..n {
        let t = start + (i as i64) * 3600;
        heights.push(sample(t as u32, t, (i % 7) as i32 * 250));
    }
    response(heights, Vec::new())
}

#[test]
fn find_abs_diff_is_symmetric_magnitude() {
    assert_eq!(find_abs_diff(10, 3), 7);
    assert_eq!(find_abs_diff(3, 10), 7);
    assert_eq!(find_abs_diff(5, 5), 0);
    assert_eq!(find_abs_diff(0, u32::MAX), u32::MAX);
}

#[test]
fn water_marks_are_session_min_and_max() {
    let data = response(
        vec![sample(0, 0, 1285), sample(3600, 3600, 1004), sample(7200, 7200, 369)],
        Vec::new(),
    );
    let model = TideModel::new(data);
    assert_eq!(model.water_mark.high_water, 1285);
    assert_eq!(model.water_mark.low_water, 369);
    assert_eq!(model.water_mark.current_water, 2);
}

#[test]
fn heights_normalize_against_session_marks() {
    let data = response(
        vec![sample(0, 0, 369), sample(3600, 3600, 1004), sample(7200, 7200, 1285)],
        Vec::new(),
    );
    let model = TideModel::new(data);
    // den = 1285 - 369 = 916; numerators are height - low.
    assert_eq!(model.normalised_heights[0], Frac { num: 0, den: 916 });
    assert_eq!(model.normalised_heights[1], Frac { num: 635, den: 916 });
    assert_eq!(model.normalised_heights[2], Frac { num: 916, den: 916 });
}

#[test]
fn all_equal_heights_normalize_to_zero() {
    let data = response(vec![sample(0, 0, 500), sample(3600, 3600, 500)], Vec::new());
    let model = TideModel::new(data);
    assert_eq!(model.water_mark.low_water, model.water_mark.high_water);
    assert_eq!(model.normalised_heights[0], Frac { num: 0, den: 1 });
    assert_eq!(model.normalised_heights[1], Frac { num: 0, den: 1 });
}

#[test]
fn extremes_map_to_earliest_nearest_sample() {
    let data = response(
        vec![sample(1000, 1000, 0), sample(2000, 2000, 100), sample(3000, 3000, 200)],
        vec![
            extreme(1900, 1900, 300, ExtremeKind::High),
            // Exactly between samples 1 and 2: the earliest index wins.
            extreme(2500, 2500, -300, ExtremeKind::Low),
        ],
    );
    let model = TideModel::new(data);
    assert_eq!(model.extremes.len(), 2);
    assert_eq!(model.extremes[0].index(), 1);
    assert_eq!(model.extremes[0].date(), 1900);
    assert_eq!(model.extremes[1].index(), 1);
    assert_eq!(model.extremes[1].date(), 2500);
}

#[test]
fn extremes_against_empty_series_vanish() {
    let data = response(Vec::new(), vec![extreme(1900, 1900, 300, ExtremeKind::High)]);
    let model = TideModel::new(data);
    assert_eq!(model.extremes.len(), 0);
}

#[test]
fn nearest_time_lookup_breaks_ties_toward_earliest_index() {
    // Target 150 is equally near both entries; the earliest index wins.
    let dates = vec![100i64, 200];
    assert_eq!(TideModel::find_time_index(&dates, 150), Some(0));

    // Under the reversed order the earliest index still wins, and the
    // chosen entry is equally near: lookup is symmetric on ties.
    let reversed = vec![200i64, 100];
    assert_eq!(TideModel::find_time_index(&reversed, 150), Some(0));
    assert_eq!((dates[0] - 150).abs(), (reversed[0] - 150).abs());

    assert_eq!(TideModel::find_time_index(&Vec::new(), 150), None);
}

#[test]
fn date_range_spans_first_to_last() {
    let data = response(
        vec![sample(0, 1000, 0), sample(1, 2000, 0), sample(2, 3000, 0)],
        Vec::new(),
    );
    let model = TideModel::new(data);
    assert_eq!(model.get_date_range(), Some((1000, 3000)));

    let empty = TideModel::new(TideResponse::nil());
    assert_eq!(empty.get_date_range(), None);
}

#[test]
fn current_height_is_nearest_sample_or_sentinel() {
    let data = response(
        vec![sample(0, 0, 0), sample(3600, 3600, 500), sample(7200, 7200, 1000)],
        Vec::new(),
    );
    let model = TideModel::new(data);
    // Nearest to t=3500 is the middle sample, normalized 500/1000.
    assert_eq!(model.get_current_norm_height(3500), Frac { num: 500, den: 1000 });

    let empty = TideModel::new(TideResponse::nil());
    let sentinel = empty.get_current_norm_height(3500);
    assert_eq!(sentinel, Frac { num: -10, den: 1 });
    assert!(sentinel.num < 0);
}

#[test]
fn window_partitions_model_at_anchor() {
    // 120 hourly samples; `now` eight hours past the fourth sample, so
    // the anchor lands exactly on it.
    let model = TideModel::new(hourly_response(100_000, 120));
    let now = 100_000 + 4 * 3600 + 28_800;
    let (window, _f) = model.get_window(now);
    assert_eq!(window.start_index, 4);
    assert_eq!(
        window.start_index as usize + window.normalised_heights.len(),
        model.normalised_heights.len()
    );
    assert_eq!(window.dates.len(), window.normalised_heights.len());
    assert_eq!(window.dates[0], 100_000 + 4 * 3600);
}

#[test]
fn freshness_needs_112_remaining_samples() {
    // Anchor on sample 0: 112 remaining samples render a fresh frame.
    let model = TideModel::new(hourly_response(100_000, 112));
    let (w, f) = model.get_window(100_000 + 28_800);
    assert_eq!(w.start_index, 0);
    assert_eq!(f, DataFreshness::Fresh);

    // One fewer remaining sample demands an update.
    let short = TideModel::new(hourly_response(100_000, 111));
    let (w, f) = short.get_window(100_000 + 28_800);
    assert_eq!(w.start_index, 0);
    assert_eq!(f, DataFreshness::NeedsUpdate);

    // An empty series always demands an update.
    let empty = TideModel::new(TideResponse::nil());
    let (w, f) = empty.get_window(100_000);
    assert_eq!(w.start_index, 0);
    assert_eq!(f, DataFreshness::NeedsUpdate);
}

#[test]
fn window_extremes_filter_and_rebase() {
    let data = response(
        vec![
            sample(1000, 1000, 0),
            sample(2000, 2000, 100),
            sample(3000, 3000, 200),
            sample(4000, 4000, 300),
        ],
        vec![
            extreme(1000, 1000, 0, ExtremeKind::Low),
            extreme(3100, 3100, 0, ExtremeKind::High),
            extreme(4000, 4000, 0, ExtremeKind::Low),
        ],
    );
    let model = TideModel::new(data);
    // Anchor near the third sample (index 2).
    let (window, _f) = model.get_window(3000 + 28_800);
    assert_eq!(window.start_index, 2);
    let inside = window.extremes();
    assert_eq!(inside.len(), 2);
    for e in &inside {
        assert!(e.index() >= window.start_index);
    }
    assert_eq!(inside[0].index(), 2);
    assert_eq!(inside[1].index(), 3);
    assert_eq!(window.get_extreme_index_in_window(inside[0].index()), 0);
    assert_eq!(window.get_extreme_index_in_window(inside[1].index()), 1);
    assert_eq!(window.water_mark().high_water, model.water_mark.high_water);
}

#[test]
fn nil_response_is_empty() {
    let nil = TideResponse::nil();
    assert_eq!(nil.heights.len(), 0);
    assert_eq!(nil.extremes.len(), 0);
    assert_eq!(nil.station.len(), 0);
}
