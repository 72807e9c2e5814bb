use vstd::prelude::*;
use crate::geometry::floor_div;

verus! {

/// A band of the gauge's range drawn in one colour (red, green, blue).
#[derive(Debug, Clone, Copy)]
pub struct ColorZone {
    pub min: i64,
    pub max: i64,
    pub color: [u8; 3],
}

/// A value shown against a range; `min_value <= value <= max_value` holds
/// after every write.
#[derive(Debug, Clone)]
pub struct Gauge {
    pub value: i64,
    pub min_value: i64,
    pub max_value: i64,
    pub unit: String,
    pub title: String,
    pub show_value: bool,
    pub color_zones: Vec<ColorZone>,
}

/// `v` moved into `[lo, hi]`.
pub open spec fn clamp_value(v: int, lo: int, hi: int) -> int {
    if v < lo {
        lo
    } else if v > hi {
        hi
    } else {
        v
    }
}

/// The point `tenths` tenths of the way from `lo` to `hi`, rounded down.
pub open spec fn range_point(lo: int, hi: int, tenths: int) -> int {
    lo + (hi - lo) * tenths / 10
}

/// Colour of a value that lies in no zone.
pub open spec fn gray() -> [u8; 3] {
    [160u8, 160u8, 160u8]
}

/// Colour of the first zone in `zones[k..]` that holds `v`, or gray.
pub open spec fn zone_color_from(zones: Seq<ColorZone>, v: int, k: int) -> [u8; 3]
    decreases zones.len() - k,
{
    if k >= zones.len() || k < 0 {
        gray()
    } else if zones[k].min <= v <= zones[k].max {
        zones[k].color
    } else {
        zone_color_from(zones, v, k + 1)
    }
}

fn range_point_exec(lo: i64, hi: i64, tenths: i64) -> (r: i64)
    requires
        lo <= hi,
        0 <= tenths <= 10,
    ensures
        r == range_point(lo as int, hi as int, tenths as int),
        lo <= r <= hi,
{
    let d: i128 = hi as i128 - lo as i128;
    proof {
        assert(0 <= d * tenths <= d * 10) by (nonlinear_arith) requires d >= 0, 0 <= tenths <= 10;
        assert(0 <= (d * tenths) / 10 <= d) by (nonlinear_arith) requires 0 <= d * tenths <= d * 10;
    }
    let q: i128 = ((d * tenths as i128) as u128 / 10) as i128;
    (lo as i128 + q) as i64
}

impl Gauge {
    pub open spec fn wf(&self) -> bool {
        self.min_value <= self.value <= self.max_value
    }

    /// A gauge at the middle of `[min_value, max_value]` (rounded down), with a
    /// green zone over the first 70% of the range, yellow up to 90% and red above.
    pub fn new(title: String, min_value: i64, max_value: i64) -> (r: Gauge)
        requires
            min_value <= max_value,
        ensures
            r.wf(),
            r.value == (min_value + max_value) / 2,
            r.min_value == min_value,
            r.max_value == max_value,
            r.unit@ == Seq::<char>::empty(),
            r.title == title,
            r.show_value,
            r.color_zones@.len() == 3,
            r.color_zones@[0].min == min_value,
            r.color_zones@[0].max == range_point(min_value as int, max_value as int, 7),
            r.color_zones@[0].color == [0u8, 255u8, 0u8],
            r.color_zones@[1].min == range_point(min_value as int, max_value as int, 7),
            r.color_zones@[1].max == range_point(min_value as int, max_value as int, 9),
            r.color_zones@[1].color == [255u8, 255u8, 0u8],
            r.color_zones@[2].min == range_point(min_value as int, max_value as int, 9),
            r.color_zones@[2].max == max_value,
            r.color_zones@[2].color == [255u8, 0u8, 0u8],
    {
        let warn_from = range_point_exec(min_value, max_value, 7);
        let alarm_from = range_point_exec(min_value, max_value, 9);
        let sum: i128 = min_value as i128 + max_value as i128;
        let mid128 = floor_div(sum, 2);
        proof {
            assert(min_value <= mid128 <= max_value) by (nonlinear_arith)
                requires mid128 as int == (sum as int) / 2, sum == min_value + max_value, min_value <= max_value;
        }
        let mid = mid128 as i64;
        Gauge {
            value: mid,
            min_value,
            max_value,
            unit: String::new(),
            title,
            show_value: true,
            color_zones: vec![
                ColorZone { min: min_value, max: warn_from, color: [0u8, 255u8, 0u8] },
                ColorZone { min: warn_from, max: alarm_from, color: [255u8, 255u8, 0u8] },
                ColorZone { min: alarm_from, max: max_value, color: [255u8, 0u8, 0u8] },
            ],
        }
    }

    /// Stores `value` moved into `[min_value, max_value]`.
    pub fn set_value(&mut self, value: i64)
        requires
            old(self).min_value <= old(self).max_value,
        ensures
            final(self).value == clamp_value(value as int, old(self).min_value as int, old(self).max_value as int),
            final(self).wf(),
            final(self).min_value == old(self).min_value,
            final(self).max_value == old(self).max_value,
            final(self).unit == old(self).unit,
            final(self).title == old(self).title,
            final(self).show_value == old(self).show_value,
            final(self).color_zones@ == old(self).color_zones@,
    {
        self.value = if value < self.min_value {
            self.min_value
        } else if value > self.max_value {
            self.max_value
        } else {
            value
        };
    }

    /// Colour of the first zone that holds the value, or gray if none does.
    pub fn get_value_color(&self) -> (r: [u8; 3])
        ensures
            r == zone_color_from(self.color_zones@, self.value as int, 0),
    {
        let n = self.color_zones.len();
        let mut k: usize = 0;
        while k < n
            invariant
                n == self.color_zones@.len(),
                0 <= k <= n,
                zone_color_from(self.color_zones@, self.value as int, 0)
                    == zone_color_from(self.color_zones@, self.value as int, k as int),
            decreases n - k,
        {
            let z = self.color_zones[k];
            if self.value >= z.min && self.value <= z.max {
                return z.color;
            }
            k = k + 1;
        }
        [160u8, 160u8, 160u8]
    }
}

/// Writing any value leaves the stored value inside the range; a value below
/// the range is stored as the minimum and one above it as the maximum.
pub proof fn lemma_set_value_out_of_range(v: int, lo: int, hi: int)
    requires
        lo <= hi,
    ensures
        lo <= clamp_value(v, lo, hi) <= hi,
        v < lo ==> clamp_value(v, lo, hi) == lo,
        v > hi ==> clamp_value(v, lo, hi) == hi,
        lo <= v <= hi ==> clamp_value(v, lo, hi) == v,
{
}

} // verus!
