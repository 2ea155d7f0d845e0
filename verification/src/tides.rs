//! Tide data model: raw samples, session water marks, normalized series,
//! extreme-event markers, and the wall-clock window that one rendered
//! frame reads.
//!
//! Timestamps are unix seconds (`i64`); raw heights are integers in the
//! caller's fixed unit (thousandths of the display unit).  The model is
//! rebuilt wholesale on every data refresh and never mutated in place.

use vstd::prelude::*;

use crate::maths::{Frac, inverse_lerp, inverse_lerp_den, inverse_lerp_num};

verus! {

/// One raw height sample: a unix timestamp (`dt`), the same instant as
/// parsed from the source's date text (`date`, unix seconds), and the
/// measured height in the caller's fixed unit.
#[derive(Clone, Copy, PartialEq, Eq, Structural, Debug)]
pub struct TideHeightData {
    pub dt: u32,
    pub date: i64,
    pub height: i32,
}

/// Which end of the tide an extreme event marks.
#[derive(Clone, Copy, PartialEq, Eq, Structural, Debug)]
pub enum ExtremeKind {
    High,
    Low,
}

/// One raw extreme event from the data source.  The kind and height are
/// accepted but not used downstream.
#[derive(Clone, Copy, PartialEq, Eq, Structural, Debug)]
pub struct TideExtremesData {
    pub dt: u32,
    pub date: i64,
    pub height: i32,
    pub extreme_type: ExtremeKind,
}

/// Session-wide high and low water marks, in the raw height unit.
/// `current_water` is carried along unused, fixed at 2.
#[derive(Clone, Copy, PartialEq, Eq, Structural, Debug)]
pub struct WaterMarkData {
    pub high_water: i32,
    pub low_water: i32,
    pub current_water: i32,
}

/// The data-source credential, as read from the caller's configuration.
pub struct Secrets {
    pub key: String,
}

/// The station query the data source is asked with, as read from the
/// caller's configuration.
pub struct Settings {
    pub lon: String,
    pub lat: String,
    pub step: String,
    pub datum: String,
}

/// The typed payload of one data refresh.
pub struct TideResponse {
    pub station: String,
    pub heights: Vec<TideHeightData>,
    pub extremes: Vec<TideExtremesData>,
}

impl TideResponse {
    /// An empty payload: the degenerate fallback for absent or malformed
    /// backing data, from which a blank but valid frame still renders.
    pub fn nil() -> (r: TideResponse)
        ensures
            r.heights@.len() == 0,
            r.extremes@.len() == 0,
            r.station@.len() == 0,
    {
        TideResponse { station: String::new(), heights: Vec::new(), extremes: Vec::new() }
    }
}

/// An extreme event mapped onto the height series: the index of the
/// sample closest to it by absolute `dt` difference, and its timestamp.
#[derive(Clone, Copy, PartialEq, Eq, Structural, Debug)]
pub struct TideExtremeGraphData {
    pub index: u32,
    pub date: i64,
}

impl TideExtremeGraphData {
    /// Index of the nearest sample in the owning model's series.
    pub fn index(&self) -> (r: u32)
        ensures
            r == self.index,
    {
        self.index
    }

    /// Timestamp of the extreme event, unix seconds.
    pub fn date(&self) -> (r: i64)
        ensures
            r == self.date,
    {
        self.date
    }
}

/// Whether the model still holds enough forward samples to draw a frame.
#[derive(Clone, Copy, PartialEq, Eq, Structural, Debug)]
pub enum DataFreshness {
    Fresh,
    NeedsUpdate,
}

/// `|a - b|`.
pub open spec fn dist(a: int, b: int) -> int {
    if a >= b {
        a - b
    } else {
        b - a
    }
}

/// `i` is the earliest index of `s` whose value is nearest to `target`:
/// no value lies strictly closer, and every earlier index lies strictly
/// farther.  At most one index satisfies this for given `s` and `target`.
pub open spec fn earliest_nearest(s: Seq<int>, target: int, i: int) -> bool {
    &&& 0 <= i < s.len()
    &&& forall|j: int| 0 <= j < s.len() ==> dist(s[i], target) <= dist(#[trigger] s[j], target)
    &&& forall|j: int| 0 <= j < i ==> dist(#[trigger] s[j], target) > dist(s[i], target)
}

/// The `dt` fields of a sample sequence, as mathematical integers.
pub open spec fn sample_dts(hs: Seq<TideHeightData>) -> Seq<int> {
    hs.map_values(|h: TideHeightData| h.dt as int)
}

/// An `i64` sequence as mathematical integers.
pub open spec fn date_ints(ds: Seq<i64>) -> Seq<int> {
    ds.map_values(|d: i64| d as int)
}

/// `|a - b|` on unix-second `dt` values.
pub fn find_abs_diff(a: u32, b: u32) -> (r: u32)
    ensures
        r as int == dist(a as int, b as int),
{
    if a > b {
        a - b
    } else {
        b - a
    }
}

/// `|a - b|` on signed timestamps, widened so no input can overflow.
fn time_diff(a: i64, b: i64) -> (r: u64)
    ensures
        r as int == dist(a as int, b as int),
{
    let d: i128 = (a as i128) - (b as i128);
    if d >= 0 {
        d as u64
    } else {
        (-d) as u64
    }
}

/// The earliest-nearest index is unique: the nearest-time lookup is a
/// deterministic function of the series and the target.
pub proof fn lemma_earliest_nearest_unique(s: Seq<int>, target: int, i: int, j: int)
    requires
        earliest_nearest(s, target, i),
        earliest_nearest(s, target, j),
    ensures
        i == j,
{
    if i < j {
        assert(dist(s[i], target) > dist(s[j], target));
        assert(dist(s[j], target) >= dist(s[i], target));
    } else if j < i {
        assert(dist(s[j], target) > dist(s[i], target));
        assert(dist(s[i], target) >= dist(s[j], target));
    }
}

/// The largest height of a sample sequence, `0` when it is empty.
pub open spec fn max_height(hs: Seq<TideHeightData>) -> int
    decreases hs.len(),
{
    if hs.len() == 0 {
        0
    } else if hs.len() == 1 {
        hs[0].height as int
    } else {
        let m = max_height(hs.drop_last());
        if hs.last().height > m {
            hs.last().height as int
        } else {
            m
        }
    }
}

/// The smallest height of a sample sequence, `0` when it is empty.
pub open spec fn min_height(hs: Seq<TideHeightData>) -> int
    decreases hs.len(),
{
    if hs.len() == 0 {
        0
    } else if hs.len() == 1 {
        hs[0].height as int
    } else {
        let m = min_height(hs.drop_last());
        if hs.last().height < m {
            hs.last().height as int
        } else {
            m
        }
    }
}

/// The maximum of a non-empty sequence is one of its elements and bounds
/// them all; likewise the minimum, from below.
pub proof fn lemma_height_extrema(hs: Seq<TideHeightData>)
    requires
        hs.len() > 0,
    ensures
        exists|i: int| 0 <= i < hs.len() && (#[trigger] hs[i]).height == max_height(hs),
        forall|i: int| 0 <= i < hs.len() ==> (#[trigger] hs[i]).height <= max_height(hs),
        exists|i: int| 0 <= i < hs.len() && (#[trigger] hs[i]).height == min_height(hs),
        forall|i: int| 0 <= i < hs.len() ==> (#[trigger] hs[i]).height >= min_height(hs),
        min_height(hs) <= max_height(hs),
    decreases hs.len(),
{
    if hs.len() == 1 {
        assert(hs[0].height == max_height(hs));
        assert(hs[0].height == min_height(hs));
    } else {
        let prefix = hs.drop_last();
        lemma_height_extrema(prefix);
        assert(forall|i: int| 0 <= i < hs.len() - 1 ==> hs[i] == #[trigger] prefix[i]);
        let wmax = choose|i: int| 0 <= i < prefix.len() && (#[trigger] prefix[i]).height
            == max_height(prefix);
        let wmin = choose|i: int| 0 <= i < prefix.len() && (#[trigger] prefix[i]).height
            == min_height(prefix);
        if hs.last().height > max_height(prefix) {
            assert(hs[hs.len() - 1].height == max_height(hs));
        } else {
            assert(hs[wmax].height == max_height(hs));
        }
        if hs.last().height < min_height(prefix) {
            assert(hs[hs.len() - 1].height == min_height(hs));
        } else {
            assert(hs[wmin].height == min_height(hs));
        }
        assert forall|i: int| 0 <= i < hs.len() implies (#[trigger] hs[i]).height <= max_height(
            hs,
        ) by {
            if i < hs.len() - 1 {
                assert(hs[i] == prefix[i]);
                assert(prefix[i].height <= max_height(prefix));
            }
        }
        assert forall|i: int| 0 <= i < hs.len() implies (#[trigger] hs[i]).height >= min_height(
            hs,
        ) by {
            if i < hs.len() - 1 {
                assert(hs[i] == prefix[i]);
                assert(prefix[i].height >= min_height(prefix));
            }
        }
    }
}

/// Session water marks: the minimum and maximum height over all samples,
/// `(0, 0)` for an empty series.  `current_water` is fixed at 2, as
/// handed over by the data source and never read downstream.
fn get_water_mark(heights: &Vec<TideHeightData>) -> (r: WaterMarkData)
    ensures
        r.high_water as int == max_height(heights@),
        r.low_water as int == min_height(heights@),
        r.low_water <= r.high_water,
        r.current_water == 2,
{
    proof {
        if heights@.len() > 0 {
            lemma_height_extrema(heights@);
        }
    }
    let mut high_water: i32 = 0;
    let mut low_water: i32 = 0;
    if heights.len() > 0 {
        high_water = heights[0].height;
        low_water = heights[0].height;
        let mut i: usize = 1;
        while i < heights.len()
            invariant
                1 <= i <= heights@.len(),
                heights@.len() >= 1,
                high_water as int == max_height(heights@.subrange(0, i as int)),
                low_water as int == min_height(heights@.subrange(0, i as int)),
            decreases heights@.len() - i,
        {
            proof {
                let pre = heights@.subrange(0, i as int);
                let post = heights@.subrange(0, i + 1);
                assert(post.drop_last() =~= pre);
                assert(post.last() == heights@[i as int]);
            }
            if heights[i].height > high_water {
                high_water = heights[i].height;
            }
            if heights[i].height < low_water {
                low_water = heights[i].height;
            }
            i = i + 1;
        }
        proof {
            assert(heights@.subrange(0, heights@.len() as int) =~= heights@);
        }
    }
    WaterMarkData { high_water, low_water, current_water: 2 }
}

/// The earliest index of `heights` whose `dt` is nearest to `target`;
/// `None` only for an empty series.
fn nearest_sample_index(heights: &Vec<TideHeightData>, target: u32) -> (r: Option<usize>)
    ensures
        r is Some <==> heights@.len() > 0,
        r matches Some(i) ==> earliest_nearest(sample_dts(heights@), target as int, i as int),
{
    if heights.len() == 0 {
        return None;
    }
    let mut best: usize = 0;
    let mut best_diff: u32 = find_abs_diff(heights[0].dt, target);
    let mut i: usize = 1;
    while i < heights.len()
        invariant
            1 <= i <= heights@.len(),
            heights@.len() >= 1,
            0 <= best < i,
            best_diff as int == dist(sample_dts(heights@)[best as int], target as int),
            forall|j: int|
                0 <= j < i ==> best_diff as int <= dist(
                    #[trigger] sample_dts(heights@)[j],
                    target as int,
                ),
            forall|j: int|
                0 <= j < best ==> dist(#[trigger] sample_dts(heights@)[j], target as int)
                    > best_diff as int,
        decreases heights@.len() - i,
    {
        let d = find_abs_diff(heights[i].dt, target);
        if d < best_diff {
            best = i;
            best_diff = d;
        }
        i = i + 1;
    }
    Some(best)
}

/// Copy of the tail of `v` from `start` on.
fn copy_tail<T: Copy>(v: &Vec<T>, start: usize) -> (r: Vec<T>)
    requires
        start <= v@.len(),
    ensures
        r@ == v@.subrange(start as int, v@.len() as int),
{
    let mut r: Vec<T> = Vec::new();
    let mut i: usize = start;
    while i < v.len()
        invariant
            start <= i <= v@.len(),
            r@ == v@.subrange(start as int, i as int),
        decreases v@.len() - i,
    {
        proof {
            assert(v@.subrange(start as int, i + 1) =~= v@.subrange(start as int, i as int).push(
                v@[i as int],
            ));
        }
        r.push(v[i]);
        i = i + 1;
    }
    r
}

/// The full normalized series with its timestamps, water marks and
/// mapped extreme events; owned, immutable once built, replaced wholesale
/// on every refresh.
pub struct TideModel {
    pub water_mark: WaterMarkData,
    pub normalised_heights: Vec<Frac>,
    pub dates: Vec<i64>,
    pub extremes: Vec<TideExtremeGraphData>,
}

/// A read-only view of the model's tail from `start_index` on, built
/// fresh for one rendered frame.
pub struct TideModelWindow {
    pub water_mark: WaterMarkData,
    pub normalised_heights: Vec<Frac>,
    pub dates: Vec<i64>,
    pub extremes: Vec<TideExtremeGraphData>,
    pub start_index: u32,
}

/// `t` is the model's current normalized height for `now`: the height at
/// the earliest sample nearest in time, or the off-screen sentinel
/// fraction `-10/1` when the series is empty.
pub open spec fn is_current_norm_height(m: TideModel, now: int, t: Frac) -> bool {
    if m.dates@.len() == 0 {
        t.num == -10 && t.den == 1
    } else {
        exists|i: int|
            #[trigger] earliest_nearest(date_ints(m.dates@), now, i) && t
                == m.normalised_heights@[i]
    }
}

/// The render window is anchored eight hours before `now`; when that
/// instant is not representable the anchor saturates to `now` itself.
pub open spec fn anchor_time(now: int) -> int {
    if now - 28800 >= i64::MIN as int {
        now - 28800
    } else {
        now
    }
}

/// Membership test for the window: the extreme's series index lies at or
/// past the window start.
pub open spec fn in_window_pred(start: u32) -> spec_fn(TideExtremeGraphData) -> bool {
    |e: TideExtremeGraphData| e.index >= start
}

impl TideModel {
    /// Internal consistency: heights and timestamps align index for
    /// index, every normalized height is a unit-interval fraction, every
    /// extreme points at a valid series index, and the water marks are
    /// ordered.
    pub open spec fn wf(self) -> bool {
        &&& self.normalised_heights@.len() == self.dates@.len()
        &&& forall|i: int|
            0 <= i < self.normalised_heights@.len() ==> (#[trigger] self.normalised_heights@[i]).inv()
                && self.normalised_heights@[i].in_unit()
        &&& forall|i: int|
            0 <= i < self.extremes@.len() ==> (#[trigger] self.extremes@[i]).index
                < self.dates@.len()
        &&& self.water_mark.low_water <= self.water_mark.high_water
    }

    /// Build a model from one data refresh: water marks are the session
    /// min and max height, every sample is normalized against them, and
    /// every extreme event is mapped to the earliest nearest sample by
    /// absolute `dt` difference.  An empty sample series yields an empty
    /// model, never a failure.
    pub fn new(data: TideResponse) -> (r: TideModel)
        requires
            data.heights@.len() <= u32::MAX as int,
        ensures
            r.wf(),
            r.water_mark.high_water as int == max_height(data.heights@),
            r.water_mark.low_water as int == min_height(data.heights@),
            r.water_mark.current_water == 2,
            r.normalised_heights@.len() == data.heights@.len(),
            forall|i: int|
                0 <= i < data.heights@.len() ==> {
                    let f = #[trigger] r.normalised_heights@[i];
                    &&& f.num == inverse_lerp_num(
                        data.heights@[i].height as int,
                        min_height(data.heights@),
                        max_height(data.heights@),
                    )
                    &&& f.den == inverse_lerp_den(
                        min_height(data.heights@),
                        max_height(data.heights@),
                    )
                },
            r.dates@.len() == data.heights@.len(),
            forall|i: int|
                0 <= i < data.heights@.len() ==> r.dates@[i] == (#[trigger] data.heights@[i]).date,
            data.heights@.len() == 0 ==> r.extremes@.len() == 0,
            data.heights@.len() > 0 ==> {
                &&& r.extremes@.len() == data.extremes@.len()
                &&& forall|j: int|
                    0 <= j < data.extremes@.len() ==> {
                        let e = #[trigger] r.extremes@[j];
                        &&& e.date == data.extremes@[j].date
                        &&& earliest_nearest(
                            sample_dts(data.heights@),
                            data.extremes@[j].dt as int,
                            e.index as int,
                        )
                    }
            },
    {
        let water_mark = get_water_mark(&data.heights);
        proof {
            if data.heights@.len() > 0 {
                lemma_height_extrema(data.heights@);
            }
        }

        let mut normalised_heights: Vec<Frac> = Vec::new();
        let mut i: usize = 0;
        while i < data.heights.len()
            invariant
                0 <= i <= data.heights@.len(),
                water_mark.low_water <= water_mark.high_water,
                water_mark.high_water as int == max_height(data.heights@),
                water_mark.low_water as int == min_height(data.heights@),
                normalised_heights@.len() == i,
                forall|k: int|
                    0 <= k < i ==> {
                        let f = #[trigger] normalised_heights@[k];
                        &&& f.inv()
                        &&& f.in_unit()
                        &&& f.num == inverse_lerp_num(
                            data.heights@[k].height as int,
                            min_height(data.heights@),
                            max_height(data.heights@),
                        )
                        &&& f.den == inverse_lerp_den(
                            min_height(data.heights@),
                            max_height(data.heights@),
                        )
                    },
            decreases data.heights@.len() - i,
        {
            normalised_heights.push(
                inverse_lerp(data.heights[i].height, water_mark.low_water, water_mark.high_water),
            );
            i = i + 1;
        }

        let mut dates: Vec<i64> = Vec::new();
        let mut i: usize = 0;
        while i < data.heights.len()
            invariant
                0 <= i <= data.heights@.len(),
                dates@.len() == i,
                forall|k: int| 0 <= k < i ==> dates@[k] == (#[trigger] data.heights@[k]).date,
            decreases data.heights@.len() - i,
        {
            dates.push(data.heights[i].date);
            i = i + 1;
        }

        let mut extremes: Vec<TideExtremeGraphData> = Vec::new();
        let mut j: usize = 0;
        while j < data.extremes.len()
            invariant
                0 <= j <= data.extremes@.len(),
                data.heights@.len() <= u32::MAX as int,
                data.heights@.len() == 0 ==> extremes@.len() == 0,
                data.heights@.len() > 0 ==> extremes@.len() == j,
                forall|k: int|
                    0 <= k < extremes@.len() ==> {
                        let e = #[trigger] extremes@[k];
                        &&& e.date == data.extremes@[k].date
                        &&& earliest_nearest(
                            sample_dts(data.heights@),
                            data.extremes@[k].dt as int,
                            e.index as int,
                        )
                    },
            decreases data.extremes@.len() - j,
        {
            match nearest_sample_index(&data.heights, data.extremes[j].dt) {
                Some(index) => {
                    extremes.push(
                        TideExtremeGraphData { index: index as u32, date: data.extremes[j].date },
                    );
                },
                None => {},
            }
            j = j + 1;
        }

        TideModel { water_mark, normalised_heights, dates, extremes }
    }

    /// The earliest index of `dates` nearest in time to `now`; `None`
    /// only for an empty series.
    pub fn find_time_index(dates: &Vec<i64>, now: i64) -> (r: Option<u32>)
        requires
            dates@.len() <= u32::MAX as int,
        ensures
            r is Some <==> dates@.len() > 0,
            r matches Some(i) ==> earliest_nearest(date_ints(dates@), now as int, i as int),
    {
        if dates.len() == 0 {
            return None;
        }
        let mut best: usize = 0;
        let mut best_diff: u64 = time_diff(dates[0], now);
        let mut i: usize = 1;
        while i < dates.len()
            invariant
                1 <= i <= dates@.len(),
                dates@.len() >= 1,
                0 <= best < i,
                best_diff as int == dist(date_ints(dates@)[best as int], now as int),
                forall|j: int|
                    0 <= j < i ==> best_diff as int <= dist(
                        #[trigger] date_ints(dates@)[j],
                        now as int,
                    ),
                forall|j: int|
                    0 <= j < best ==> dist(#[trigger] date_ints(dates@)[j], now as int)
                        > best_diff as int,
            decreases dates@.len() - i,
        {
            let d = time_diff(dates[i], now);
            if d < best_diff {
                best = i;
                best_diff = d;
            }
            i = i + 1;
        }
        Some(best as u32)
    }

    /// First and last timestamp of the series; `None` when it is empty.
    pub fn get_date_range(&self) -> (r: Option<(i64, i64)>)
        ensures
            r is Some <==> self.dates@.len() > 0,
            r matches Some(p) ==> p.0 == self.dates@[0] && p.1 == self.dates@[self.dates@.len()
                - 1],
    {
        if self.dates.len() > 0 {
            Some((self.dates[0], self.dates[self.dates.len() - 1]))
        } else {
            None
        }
    }

    /// The normalized height at the sample nearest to `now`, or the
    /// sentinel fraction `-10` — strictly below the unit interval, so a
    /// gauge interpolating with it saturates to the bottom — when the
    /// series is empty.
    pub fn get_current_norm_height(&self, now: i64) -> (r: Frac)
        requires
            self.wf(),
            self.dates@.len() <= u32::MAX as int,
        ensures
            is_current_norm_height(*self, now as int, r),
            self.dates@.len() > 0 ==> r.in_unit(),
            r.inv(),
    {
        match TideModel::find_time_index(&self.dates, now) {
            Some(index) => self.normalised_heights[index as usize],
            None => Frac { num: -10, den: 1 },
        }
    }

    /// One frame's window: the tail of the series from the sample nearest
    /// to eight hours before `now`.  The frame is `Fresh` only when at
    /// least 112 samples (the 107-column display plus a five-frame
    /// margin) remain from that anchor; otherwise the caller must refresh
    /// rather than render a short window as if it were complete.
    pub fn get_window(&self, now: i64) -> (r: (TideModelWindow, DataFreshness))
        requires
            self.wf(),
            self.dates@.len() <= u32::MAX as int,
        ensures
            ({
                let w = r.0;
                &&& w.wf()
                &&& w.water_mark == self.water_mark
                &&& w.start_index as int + w.normalised_heights@.len()
                    == self.normalised_heights@.len()
                &&& w.normalised_heights@ == self.normalised_heights@.subrange(
                    w.start_index as int,
                    self.normalised_heights@.len() as int,
                )
                &&& w.dates@ == self.dates@.subrange(w.start_index as int, self.dates@.len() as int)
                &&& w.extremes@ == self.extremes@
                &&& (self.dates@.len() == 0 ==> w.start_index == 0)
                &&& (self.dates@.len() > 0 ==> earliest_nearest(
                    date_ints(self.dates@),
                    anchor_time(now as int),
                    w.start_index as int,
                ))
                &&& (r.1 is Fresh <==> self.dates@.len() > 0 && self.dates@.len()
                    - w.start_index as int >= 112)
            }),
    {
        let start_utc: i64 = if now >= i64::MIN + 28800 {
            now - 28800
        } else {
            now
        };
        let mut freshness = DataFreshness::Fresh;
        let mut start: usize = 0;
        match TideModel::find_time_index(&self.dates, start_utc) {
            Some(start_index) => {
                start = start_index as usize;
                if self.normalised_heights.len() - start < 112 {
                    freshness = DataFreshness::NeedsUpdate;
                }
            },
            None => {
                freshness = DataFreshness::NeedsUpdate;
            },
        }
        let w = TideModelWindow {
            water_mark: self.water_mark,
            normalised_heights: copy_tail(&self.normalised_heights, start),
            dates: copy_tail(&self.dates, start),
            extremes: copy_tail(&self.extremes, 0),
            start_index: start as u32,
        };
        (w, freshness)
    }
}

impl TideModelWindow {
    /// Internal consistency of a window view.
    pub open spec fn wf(self) -> bool {
        &&& self.normalised_heights@.len() == self.dates@.len()
        &&& forall|i: int|
            0 <= i < self.normalised_heights@.len() ==> (#[trigger] self.normalised_heights@[i]).inv()
                && self.normalised_heights@[i].in_unit()
        &&& forall|i: int|
            0 <= i < self.extremes@.len() ==> ((#[trigger] self.extremes@[i]).index as int) < (
            self.start_index as int + self.normalised_heights@.len())
    }

    /// The subset of the model's extreme events that falls inside this
    /// window: exactly those whose series index lies at or past
    /// `start_index`, in their original order.
    pub fn extremes(&self) -> (r: Vec<TideExtremeGraphData>)
        ensures
            r@ == self.extremes@.filter(in_window_pred(self.start_index)),
            forall|j: int| 0 <= j < r@.len() ==> (#[trigger] r@[j]).index >= self.start_index,
            forall|j: int|
                0 <= j < r@.len() ==> self.extremes@.contains(#[trigger] r@[j]),
    {
        let mut r: Vec<TideExtremeGraphData> = Vec::new();
        let mut i: usize = 0;
        while i < self.extremes.len()
            invariant
                0 <= i <= self.extremes@.len(),
                r@ == self.extremes@.subrange(0, i as int).filter(in_window_pred(self.start_index)),
                forall|j: int| 0 <= j < r@.len() ==> (#[trigger] r@[j]).index >= self.start_index,
                forall|j: int|
                    0 <= j < r@.len() ==> self.extremes@.contains(#[trigger] r@[j]),
            decreases self.extremes@.len() - i,
        {
            proof {
                reveal(Seq::filter);
                let pred = in_window_pred(self.start_index);
                let pre = self.extremes@.subrange(0, i as int);
                let post = self.extremes@.subrange(0, i + 1);
                assert(post.drop_last() =~= pre);
                assert(post.last() == self.extremes@[i as int]);
                if pred(self.extremes@[i as int]) {
                    assert(post.filter(pred) =~= pre.filter(pred).push(self.extremes@[i as int]));
                } else {
                    assert(post.filter(pred) =~= pre.filter(pred));
                }
            }
            if self.extremes[i].index >= self.start_index {
                r.push(self.extremes[i]);
            }
            i = i + 1;
        }
        proof {
            assert(self.extremes@.subrange(0, self.extremes@.len() as int) =~= self.extremes@);
        }
        r
    }

    /// An extreme's column within the window: its series index made
    /// relative to the window start.
    pub fn get_extreme_index_in_window(&self, extreme_index: u32) -> (r: u32)
        requires
            self.start_index <= extreme_index,
        ensures
            r == extreme_index - self.start_index,
    {
        extreme_index - self.start_index
    }

    /// The session-wide water marks this window was copied with.
    pub fn water_mark(&self) -> (r: &WaterMarkData)
        ensures
            *r == self.water_mark,
    {
        &self.water_mark
    }
}

/// Nearest-time lookup is symmetric under reversing the input order:
/// the earliest-index tie-break may pick the other end of an exact tie,
/// but the chosen sample is equally near in both orders.
pub proof fn lemma_nearest_reverse(s: Seq<int>, target: int, i: int, j: int)
    requires
        earliest_nearest(s, target, i),
        earliest_nearest(s.reverse(), target, j),
    ensures
        dist(s[i], target) == dist(s.reverse()[j], target),
{
    let n = s.len();
    assert(s.reverse()[j] == s[n - 1 - j]);
    assert(dist(s[i], target) <= dist(s[n - 1 - j], target));
    assert(s.reverse()[n - 1 - i] == s[i]);
    assert(dist(s.reverse()[j], target) <= dist(s.reverse()[n - 1 - i], target));
}

} // verus!
