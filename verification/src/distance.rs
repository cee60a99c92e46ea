//! Geographic distance between a worker's search area and a job site.
//!
//! The planar equirectangular approximation of the original: latitude and
//! longitude degree differences are converted to kilometres with fixed
//! per-degree constants, the longitude one scaled by the cosine of the mean
//! latitude, and the two components combined by Pythagoras. All arithmetic is
//! fixed-point: coordinates in micro-degrees, distances in micro-kilometres,
//! and the cosine a degree-8 Taylor approximation in micro-units.

use vstd::prelude::*;
use vstd::arithmetic::div_mod::lemma_div_is_ordered;
use crate::decimal::{decimal_micro, decimal_micro_mag, decimal_shape, parse_decimal_micro,
    ParseNumberError};
use crate::dto::{GeographicAreaDto, GeographicLocationDto};

verus! {

/// Coordinates are accepted up to this magnitude (90 degrees, micro).
pub const LAT_LIMIT_MICRO: i64 = 90_000_000;

/// Longitudes are accepted up to this magnitude (180 degrees, micro).
pub const LONG_LIMIT_MICRO: i64 = 180_000_000;

pub open spec fn abs(x: int) -> int {
    if x < 0 {
        -x
    } else {
        x
    }
}

/// Cosine on the first quadrant, `d` in micro-degrees within [0, 90000000]:
/// four Taylor terms over nano-radians, result scaled by one million.
pub open spec fn cos_quadrant_micro(d: int) -> int {
    let rad_n = d * 17453293 / 1000000;
    let x2 = rad_n * rad_n / 1000000000000;
    let t2 = x2 / 2;
    let t4 = x2 * x2 / 24000000;
    let t6 = x2 * x2 * x2 / 720000000000000;
    let t8 = x2 * x2 * x2 * x2 / 40320000000000000000000;
    1000000 - t2 + t4 - t6 + t8
}

/// Cosine of a non-negative angle in micro-degrees, scaled by one million:
/// the angle is reduced modulo a full turn and folded onto the first quadrant.
pub open spec fn cos_micro_spec(x: int) -> int {
    let a = x % 360000000;
    let b = if a > 180000000 {
        360000000 - a
    } else {
        a
    };
    if b > 90000000 {
        -cos_quadrant_micro(180000000 - b)
    } else {
        cos_quadrant_micro(b)
    }
}

/// The latitude component in micro-kilometres.
pub open spec fn lat_km_micro(dlat: int) -> int {
    abs(dlat) * 110574 / 1000
}

/// The longitude component in micro-kilometres; `mean_lat` is the magnitude
/// of the mean latitude in micro-degrees.
pub open spec fn long_km_micro(mean_lat: int, dlong: int) -> int {
    abs(dlong) * 11320 * abs(cos_micro_spec(mean_lat)) / 1000000000
}

/// A coordinate string is accepted when it parses and lies within `limit`
/// micro-degrees of zero.
pub open spec fn coord_ok(s: Seq<char>, limit: int) -> bool {
    &&& decimal_shape(s)
    &&& decimal_micro_mag(s) <= i64::MAX
    &&& abs(decimal_micro(s)) <= limit
}

/// The error reported for a single unacceptable coordinate string.
pub open spec fn coord_error(s: Seq<char>) -> ParseNumberError {
    if !decimal_shape(s) {
        ParseNumberError::NotANumber
    } else {
        ParseNumberError::OutOfRange
    }
}

/// The squared distance, in squared micro-kilometres, between an area centre
/// and a location.
pub open spec fn squared_distance_micro(
    area_lat: Seq<char>,
    area_long: Seq<char>,
    loc_lat: Seq<char>,
    loc_long: Seq<char>,
) -> int {
    let lat1 = decimal_micro(area_lat);
    let lat2 = decimal_micro(loc_lat);
    let long1 = decimal_micro(area_long);
    let long2 = decimal_micro(loc_long);
    let la = lat_km_micro(lat1 - lat2);
    let lo = long_km_micro(abs(lat1 + lat2) / 2, long1 - long2);
    la * la + lo * lo
}

/// All four coordinates of a pair are acceptable. Checked in the order the
/// evaluator reads them: area latitude, location latitude, area longitude,
/// location longitude.
pub open spec fn coords_ok(
    area_lat: Seq<char>,
    area_long: Seq<char>,
    loc_lat: Seq<char>,
    loc_long: Seq<char>,
) -> bool {
    &&& coord_ok(area_lat, LAT_LIMIT_MICRO as int)
    &&& coord_ok(loc_lat, LAT_LIMIT_MICRO as int)
    &&& coord_ok(area_long, LONG_LIMIT_MICRO as int)
    &&& coord_ok(loc_long, LONG_LIMIT_MICRO as int)
}

/// The error of the first unacceptable coordinate, in reading order.
pub open spec fn first_coord_error(
    area_lat: Seq<char>,
    area_long: Seq<char>,
    loc_lat: Seq<char>,
    loc_long: Seq<char>,
) -> ParseNumberError {
    if !coord_ok(area_lat, LAT_LIMIT_MICRO as int) {
        coord_error(area_lat)
    } else if !coord_ok(loc_lat, LAT_LIMIT_MICRO as int) {
        coord_error(loc_lat)
    } else if !coord_ok(area_long, LONG_LIMIT_MICRO as int) {
        coord_error(area_long)
    } else {
        coord_error(loc_long)
    }
}

/// `r` is the integer square root of `n`.
pub open spec fn is_sqrt_floor(n: int, r: int) -> bool {
    r >= 0 && r * r <= n && n < (r + 1) * (r + 1)
}

/// The integer square root as a mathematical function.
pub open spec fn sqrt_floor(n: int) -> int {
    choose|r: int| is_sqrt_floor(n, r)
}

/// Any witness of the integer-square-root property is `sqrt_floor`.
pub proof fn lemma_sqrt_floor_is(n: int, r: int)
    requires
        r >= 0,
        r * r <= n,
        n < (r + 1) * (r + 1),
    ensures
        sqrt_floor(n) == r,
{
    assert(is_sqrt_floor(n, r));
    let w = sqrt_floor(n);
    assert(is_sqrt_floor(n, w));
    if w < r {
        assert((w + 1) * (w + 1) <= r * r) by (nonlinear_arith)
            requires
                0 <= w,
                w < r,
        ;
    } else if r < w {
        assert((r + 1) * (r + 1) <= w * w) by (nonlinear_arith)
            requires
                0 <= r,
                r < w,
        ;
    }
}

/// Integer square root: the greatest `r` with `r * r <= n`.
pub fn isqrt_u128(n: u128) -> (r: u128)
    ensures
        r * r <= n,
        n < (r + 1) * (r + 1),
{
    if n == 0 {
        return 0;
    }
    let mut lo: u128 = 0;
    let mut hi: u128 = if n < 18446744073709551615 {
        n + 1
    } else {
        18446744073709551616
    };
    proof {
        assert(hi * hi > n) by (nonlinear_arith)
            requires
                (n < 18446744073709551615 && hi == n + 1) || (n >= 18446744073709551615 && hi
                    == 18446744073709551616),
                n <= u128::MAX,
        ;
    }
    while lo + 1 < hi
        invariant
            lo < hi,
            lo * lo <= n,
            hi * hi > n,
            hi <= 18446744073709551616,
            n <= u128::MAX,
        decreases hi - lo,
    {
        let mid = lo + (hi - lo) / 2;
        proof {
            assert(mid * mid <= u128::MAX) by (nonlinear_arith)
                requires
                    mid < 18446744073709551616,
            ;
        }
        if mid * mid <= n {
            lo = mid;
        } else {
            hi = mid;
        }
    }
    lo
}

/// Cosine of `x` micro-degrees, scaled by one million. The result of the
/// truncated Taylor evaluation stays within 1.3 million in magnitude.
pub fn cos_micro(x: u64) -> (r: i64)
    ensures
        r as int == cos_micro_spec(x as int),
        -1300000 <= r <= 1300000,
{
    let a: u64 = x % 360000000;
    let b: u64 = if a > 180000000 {
        360000000 - a
    } else {
        a
    };
    let (q, sign_flip) = if b > 90000000 {
        (180000000 - b, true)
    } else {
        (b, false)
    };
    let c = cos_quadrant(q);
    if sign_flip {
        -c
    } else {
        c
    }
}

fn cos_quadrant(d: u64) -> (r: i64)
    requires
        d <= 90000000,
    ensures
        r as int == cos_quadrant_micro(d as int),
        -300000 <= r <= 1000000,
{
    proof {
        assert((d as int) * 17453293 <= 90000000int * 17453293) by (nonlinear_arith)
            requires
                0 <= d <= 90000000,
        ;
    }
    let rad_n: u128 = (d as u128) * 17453293 / 1000000;
    proof {
        lemma_div_is_ordered((d as int) * 17453293, 90000000int * 17453293, 1000000);
        assert(rad_n * rad_n <= 1570796370int * 1570796370) by (nonlinear_arith)
            requires
                0 <= rad_n <= 1570796370,
        ;
    }
    let x2: u128 = rad_n * rad_n / 1000000000000;
    proof {
        lemma_div_is_ordered((rad_n * rad_n) as int, 1570796370int * 1570796370, 1000000000000);
        assert(x2 * x2 <= 2467401int * 2467401 && x2 * x2 * x2 <= 2467401int * 2467401 * 2467401)
            by (nonlinear_arith)
            requires
                0 <= x2 <= 2467401,
        ;
    }
    let t2: u128 = x2 / 2;
    let t4: u128 = x2 * x2 / 24000000;
    proof {
        lemma_div_is_ordered((x2 * x2) as int, 2467401int * 2467401, 24000000);
    }
    let x6: u128 = x2 * x2 * x2;
    proof {
        lemma_div_is_ordered(x6 as int, 2467401int * 2467401 * 2467401, 720000000000000);
        assert(x6 * x2 <= 2467401int * 2467401 * 2467401 * 2467401) by (nonlinear_arith)
            requires
                0 <= x2 <= 2467401,
                0 <= x6 <= 2467401int * 2467401 * 2467401,
        ;
    }
    let t6: u128 = x6 / 720000000000000;
    let x8: u128 = x6 * x2;
    proof {
        lemma_div_is_ordered(x8 as int, 2467401int * 2467401 * 2467401 * 2467401,
            40320000000000000000000);
    }
    let t8: u128 = x8 / 40320000000000000000000;
    let r: i128 = 1000000 - (t2 as i128) + (t4 as i128) - (t6 as i128) + (t8 as i128);
    proof {
        // the higher term of each alternating pair never outweighs the lower
        assert(x2 * x2 / 24000000 <= x2 / 2) by {
            assert(x2 * x2 <= x2 * 12000000) by (nonlinear_arith)
                requires
                    0 <= x2 <= 2467401,
            ;
            lemma_div_is_ordered((x2 * x2) as int, (x2 * 12000000) as int, 24000000);
            vstd::arithmetic::div_mod::lemma_div_denominator((x2 * 12000000) as int, 12000000, 2);
            vstd::arithmetic::div_mod::lemma_div_multiples_vanish(x2 as int, 12000000);
        }
        assert(x8 / 40320000000000000000000 <= x6 / 720000000000000) by {
            assert(x8 <= x6 * 56000000) by (nonlinear_arith)
                requires
                    0 <= x2 <= 2467401,
                    x8 == x6 * x2,
                    x6 >= 0,
            ;
            lemma_div_is_ordered(x8 as int, (x6 * 56000000) as int, 40320000000000000000000);
            vstd::arithmetic::div_mod::lemma_div_denominator((x6 * 56000000) as int, 56000000,
                720000000000000);
            vstd::arithmetic::div_mod::lemma_div_multiples_vanish(x6 as int, 56000000);
        }
    }
    r as i64
}

/// The result of a distance evaluation, and why it can fail.
pub trait GeographicDistanceEvaluator {
    /// The distance in micro-kilometres between a search area's centre and a
    /// job location, or the first coordinate error.
    fn determine_distance(
        &self,
        location1: &GeographicAreaDto,
        location2: &GeographicLocationDto,
    ) -> Result<i64, ParseNumberError>;
}

/// The default evaluator: planar Pythagoras over per-degree constants.
#[derive(Debug)]
pub struct PythagorasDistanceEvaluator {}

impl PythagorasDistanceEvaluator {
    pub fn new() -> (r: PythagorasDistanceEvaluator)
        ensures
            r == (PythagorasDistanceEvaluator {  }),
    {
        PythagorasDistanceEvaluator {  }
    }
}

fn parse_coord(s: &String, limit: i64) -> (r: Result<i64, ParseNumberError>)
    requires
        limit > 0,
    ensures
        r.is_ok() <==> coord_ok(s@, limit as int),
        r.is_ok() ==> r.unwrap() as int == decimal_micro(s@) && abs(r.unwrap() as int)
            <= limit as int,
        r.is_err() ==> r == Err::<i64, _>(coord_error(s@)),
{
    match parse_decimal_micro(s.as_str()) {
        Ok(v) => {
            if v > limit || v < -limit {
                Err(ParseNumberError::OutOfRange)
            } else {
                Ok(v)
            }
        },
        Err(e) => Err(e),
    }
}

impl GeographicDistanceEvaluator for PythagorasDistanceEvaluator {
    /// Succeeds exactly when all four coordinates parse as decimals within
    /// the latitude/longitude ranges; the result is the integer square root
    /// of the squared planar distance, in micro-kilometres.
    fn determine_distance(
        &self,
        location1: &GeographicAreaDto,
        location2: &GeographicLocationDto,
    ) -> (r: Result<i64, ParseNumberError>)
        ensures
            r.is_ok() <==> coords_ok(
                location1.latitude@,
                location1.longitude@,
                location2.latitude@,
                location2.longitude@,
            ),
            r.is_ok() ==> {
                let d2 = squared_distance_micro(
                    location1.latitude@,
                    location1.longitude@,
                    location2.latitude@,
                    location2.longitude@,
                );
                &&& r.unwrap() >= 0
                &&& (r.unwrap() as int) * (r.unwrap() as int) <= d2
                &&& d2 < (r.unwrap() + 1) * (r.unwrap() + 1)
                &&& r.unwrap() as int == sqrt_floor(d2)
            },
            r.is_err() ==> r == Err::<i64, _>(
                first_coord_error(
                    location1.latitude@,
                    location1.longitude@,
                    location2.latitude@,
                    location2.longitude@,
                ),
            ),
    {
        let lat1 = match parse_coord(&location1.latitude, LAT_LIMIT_MICRO) {
            Ok(v) => v,
            Err(e) => {
                return Err(e);
            },
        };
        let lat2 = match parse_coord(&location2.latitude, LAT_LIMIT_MICRO) {
            Ok(v) => v,
            Err(e) => {
                return Err(e);
            },
        };
        let long1 = match parse_coord(&location1.longitude, LONG_LIMIT_MICRO) {
            Ok(v) => v,
            Err(e) => {
                return Err(e);
            },
        };
        let long2 = match parse_coord(&location2.longitude, LONG_LIMIT_MICRO) {
            Ok(v) => v,
            Err(e) => {
                return Err(e);
            },
        };

        // latitude difference in micro-kilometres
        let dlat: i64 = if lat1 >= lat2 {
            lat1 - lat2
        } else {
            lat2 - lat1
        };
        proof {
            assert((dlat as int) * 110574 <= 180000000int * 110574) by (nonlinear_arith)
                requires
                    0 <= dlat <= 180000000,
            ;
        }
        let la: u128 = (dlat as u128) * 110574 / 1000;
        proof {
            assert(la as int == lat_km_micro(decimal_micro(location1.latitude@) - decimal_micro(
                location2.latitude@,
            )));
            lemma_div_is_ordered((dlat as int) * 110574, 180000000int * 110574, 1000);
        }

        // mean latitude magnitude in micro-degrees
        let sum: i64 = lat1 + lat2;
        let mean: u64 = if sum >= 0 {
            (sum as u64) / 2
        } else {
            ((-sum) as u64) / 2
        };
        let cosv: i64 = cos_micro(mean);
        let cosa: u64 = if cosv >= 0 {
            cosv as u64
        } else {
            (-cosv) as u64
        };

        // longitude difference in micro-kilometres
        let dlong: i64 = if long1 >= long2 {
            long1 - long2
        } else {
            long2 - long1
        };
        proof {
            assert((dlong as int) * 11320 <= 360000000int * 11320 && (dlong as int) * 11320 * (
            cosa as int) <= 360000000int * 11320 * 1300000) by (nonlinear_arith)
                requires
                    0 <= dlong <= 360000000,
                    0 <= cosa <= 1300000,
            ;
        }
        let lo: u128 = (dlong as u128) * 11320 * (cosa as u128) / 1000000000;
        proof {
            assert(lo as int == long_km_micro(
                abs(
                    decimal_micro(location1.latitude@) + decimal_micro(location2.latitude@),
                ) / 2,
                decimal_micro(location1.longitude@) - decimal_micro(location2.longitude@),
            ));
            lemma_div_is_ordered(
                ((dlong as int) * 11320 * (cosa as int)),
                360000000int * 11320 * 1300000,
                1000000000,
            );
            assert(la * la <= 19903320000int * 19903320000 && lo * lo <= 5297760000int
                * 5297760000) by (nonlinear_arith)
                requires
                    0 <= la <= 19903320000,
                    0 <= lo <= 5297760000,
            ;
        }

        let d2: u128 = la * la + lo * lo;
        let d = isqrt_u128(d2);
        proof {
            lemma_sqrt_floor_is(d2 as int, d as int);
            assert(d * d <= d2);
            assert(d <= 20596378747) by (nonlinear_arith)
                requires
                    d * d <= d2,
                    d2 <= 19903320000int * 19903320000 + 5297760000int * 5297760000,
            ;
        }
        Ok(d as i64)
    }
}

} // verus!
