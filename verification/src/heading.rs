//! Headings for whole degrees, in fixed point.
//!
//! A heading is the vector `(cos, sin)` of an angle, scaled by [`UNIT`] and
//! rounded to the nearest integer. The first quarter turn is tabulated; the
//! other three follow from it by symmetry, so the four axis headings are
//! exact and the table is the only place where a rounded value enters.

use vstd::prelude::*;
use crate::geometry::Direction;

verus! {

/// The length that stands for one: a heading is `UNIT` long, up to rounding.
pub const UNIT: i16 = 16384;

/// Whole degrees in a full turn.
pub const FULL_TURN: u16 = 360;

/// `UNIT` times the sine of `k` degrees, to the nearest integer, for `k`
/// from 0 to 90. Below the range it is the value at 0, above it the value
/// at 90.
#[verifier::opaque]
pub open spec fn sine_table(k: int) -> int {
    if k <= 0 {
        0
    } else if k == 1 {
        286
    } else if k == 2 {
        572
    } else if k == 3 {
        857
    } else if k == 4 {
        1143
    } else if k == 5 {
        1428
    } else if k == 6 {
        1713
    } else if k == 7 {
        1997
    } else if k == 8 {
        2280
    } else if k == 9 {
        2563
    } else if k == 10 {
        2845
    } else if k == 11 {
        3126
    } else if k == 12 {
        3406
    } else if k == 13 {
        3686
    } else if k == 14 {
        3964
    } else if k == 15 {
        4240
    } else if k == 16 {
        4516
    } else if k == 17 {
        4790
    } else if k == 18 {
        5063
    } else if k == 19 {
        5334
    } else if k == 20 {
        5604
    } else if k == 21 {
        5872
    } else if k == 22 {
        6138
    } else if k == 23 {
        6402
    } else if k == 24 {
        6664
    } else if k == 25 {
        6924
    } else if k == 26 {
        7182
    } else if k == 27 {
        7438
    } else if k == 28 {
        7692
    } else if k == 29 {
        7943
    } else if k == 30 {
        8192
    } else if k == 31 {
        8438
    } else if k == 32 {
        8682
    } else if k == 33 {
        8923
    } else if k == 34 {
        9162
    } else if k == 35 {
        9397
    } else if k == 36 {
        9630
    } else if k == 37 {
        9860
    } else if k == 38 {
        10087
    } else if k == 39 {
        10311
    } else if k == 40 {
        10531
    } else if k == 41 {
        10749
    } else if k == 42 {
        10963
    } else if k == 43 {
        11174
    } else if k == 44 {
        11381
    } else if k == 45 {
        11585
    } else if k == 46 {
        11786
    } else if k == 47 {
        11982
    } else if k == 48 {
        12176
    } else if k == 49 {
        12365
    } else if k == 50 {
        12551
    } else if k == 51 {
        12733
    } else if k == 52 {
        12911
    } else if k == 53 {
        13085
    } else if k == 54 {
        13255
    } else if k == 55 {
        13421
    } else if k == 56 {
        13583
    } else if k == 57 {
        13741
    } else if k == 58 {
        13894
    } else if k == 59 {
        14044
    } else if k == 60 {
        14189
    } else if k == 61 {
        14330
    } else if k == 62 {
        14466
    } else if k == 63 {
        14598
    } else if k == 64 {
        14726
    } else if k == 65 {
        14849
    } else if k == 66 {
        14968
    } else if k == 67 {
        15082
    } else if k == 68 {
        15191
    } else if k == 69 {
        15296
    } else if k == 70 {
        15396
    } else if k == 71 {
        15491
    } else if k == 72 {
        15582
    } else if k == 73 {
        15668
    } else if k == 74 {
        15749
    } else if k == 75 {
        15826
    } else if k == 76 {
        15897
    } else if k == 77 {
        15964
    } else if k == 78 {
        16026
    } else if k == 79 {
        16083
    } else if k == 80 {
        16135
    } else if k == 81 {
        16182
    } else if k == 82 {
        16225
    } else if k == 83 {
        16262
    } else if k == 84 {
        16294
    } else if k == 85 {
        16322
    } else if k == 86 {
        16344
    } else if k == 87 {
        16362
    } else if k == 88 {
        16374
    } else if k == 89 {
        16382
    } else {
        16384
    }
}

/// `UNIT` times the cosine of `deg` degrees, for `deg` from 0 to 359.
pub open spec fn cosine(deg: int) -> int {
    if deg <= 90 {
        sine_table(90 - deg)
    } else if deg <= 180 {
        -sine_table(deg - 90)
    } else if deg <= 270 {
        -sine_table(270 - deg)
    } else {
        sine_table(deg - 270)
    }
}

/// `UNIT` times the sine of `deg` degrees, for `deg` from 0 to 359.
pub open spec fn sine(deg: int) -> int {
    if deg <= 90 {
        sine_table(deg)
    } else if deg <= 180 {
        sine_table(180 - deg)
    } else if deg <= 270 {
        -sine_table(deg - 180)
    } else {
        -sine_table(360 - deg)
    }
}

/// The heading of `deg` degrees: 0 points along the positive x axis, and
/// growing angles turn towards the positive y axis.
pub open spec fn heading(deg: int) -> Direction {
    Direction { dx: cosine(deg) as i16, dy: sine(deg) as i16 }
}

/// The table entry for `k` degrees; past 90 degrees, the entry for 90.
pub fn sine_lookup(k: u16) -> (s: i16)
    ensures
        s == sine_table(k as int),
        0 <= s <= UNIT,
{
    reveal(sine_table);
    match k {
        0 => 0,
        1 => 286,
        2 => 572,
        3 => 857,
        4 => 1143,
        5 => 1428,
        6 => 1713,
        7 => 1997,
        8 => 2280,
        9 => 2563,
        10 => 2845,
        11 => 3126,
        12 => 3406,
        13 => 3686,
        14 => 3964,
        15 => 4240,
        16 => 4516,
        17 => 4790,
        18 => 5063,
        19 => 5334,
        20 => 5604,
        21 => 5872,
        22 => 6138,
        23 => 6402,
        24 => 6664,
        25 => 6924,
        26 => 7182,
        27 => 7438,
        28 => 7692,
        29 => 7943,
        30 => 8192,
        31 => 8438,
        32 => 8682,
        33 => 8923,
        34 => 9162,
        35 => 9397,
        36 => 9630,
        37 => 9860,
        38 => 10087,
        39 => 10311,
        40 => 10531,
        41 => 10749,
        42 => 10963,
        43 => 11174,
        44 => 11381,
        45 => 11585,
        46 => 11786,
        47 => 11982,
        48 => 12176,
        49 => 12365,
        50 => 12551,
        51 => 12733,
        52 => 12911,
        53 => 13085,
        54 => 13255,
        55 => 13421,
        56 => 13583,
        57 => 13741,
        58 => 13894,
        59 => 14044,
        60 => 14189,
        61 => 14330,
        62 => 14466,
        63 => 14598,
        64 => 14726,
        65 => 14849,
        66 => 14968,
        67 => 15082,
        68 => 15191,
        69 => 15296,
        70 => 15396,
        71 => 15491,
        72 => 15582,
        73 => 15668,
        74 => 15749,
        75 => 15826,
        76 => 15897,
        77 => 15964,
        78 => 16026,
        79 => 16083,
        80 => 16135,
        81 => 16182,
        82 => 16225,
        83 => 16262,
        84 => 16294,
        85 => 16322,
        86 => 16344,
        87 => 16362,
        88 => 16374,
        89 => 16382,
        _ => 16384,
    }
}

impl Direction {
    /// The heading of `degrees`, taken modulo a full turn.
    pub fn from_degrees(degrees: u16) -> (d: Direction)
        ensures
            d == heading((degrees % FULL_TURN) as int),
            d.dx == cosine((degrees % FULL_TURN) as int),
            d.dy == sine((degrees % FULL_TURN) as int),
    {
        let deg: u16 = degrees % FULL_TURN;
        if deg <= 90 {
            Direction { dx: sine_lookup(90 - deg), dy: sine_lookup(deg) }
        } else if deg <= 180 {
            Direction { dx: -sine_lookup(deg - 90), dy: sine_lookup(180 - deg) }
        } else if deg <= 270 {
            Direction { dx: -sine_lookup(270 - deg), dy: -sine_lookup(deg - 180) }
        } else {
            Direction { dx: sine_lookup(deg - 270), dy: -sine_lookup(360 - deg) }
        }
    }
}

/// The table rises strictly from 0 at no degrees to `UNIT` at 90.
pub proof fn lemma_sine_table_rises(k: int)
    requires
        0 <= k < 90,
    ensures
        0 <= sine_table(k) < sine_table(k + 1) <= UNIT,
        sine_table(0) == 0,
        sine_table(90) == UNIT,
{
    reveal(sine_table);
}

/// The table rises over any stretch of it.
pub proof fn lemma_sine_table_ordered(j: int, k: int)
    requires
        0 <= j < k <= 90,
    ensures
        0 <= sine_table(j) < sine_table(k) <= UNIT,
    decreases k - j,
{
    lemma_sine_table_rises(k - 1);
    if j < k - 1 {
        lemma_sine_table_ordered(j, k - 1);
    }
}

/// Neither part of a heading is longer than `UNIT`, so a heading fits
/// its type.
pub proof fn lemma_heading_fits(deg: int)
    requires
        0 <= deg < FULL_TURN,
    ensures
        -UNIT <= cosine(deg) <= UNIT,
        -UNIT <= sine(deg) <= UNIT,
        heading(deg).dx == cosine(deg),
        heading(deg).dy == sine(deg),
{
    reveal(sine_table);
}

/// The four headings along the axes are exact.
pub proof fn lemma_axis_headings()
    ensures
        heading(0) == (Direction { dx: UNIT, dy: 0 }),
        heading(90) == (Direction { dx: 0, dy: UNIT }),
        heading(180) == (Direction { dx: (-UNIT) as i16, dy: 0 }),
        heading(270) == (Direction { dx: 0, dy: (-UNIT) as i16 }),
{
    reveal(sine_table);
}

/// No two whole degrees of a full turn share a heading.
pub proof fn lemma_headings_distinct(a: int, b: int)
    requires
        0 <= a < b < FULL_TURN,
    ensures
        heading(a) != heading(b),
{
    lemma_heading_fits(a);
    lemma_heading_fits(b);
    lemma_quadrant(a);
    lemma_quadrant(b);
    if a / 90 == b / 90 {
        if a < 90 {
            lemma_sine_table_ordered(a, b);
        } else if a < 180 {
            lemma_sine_table_ordered(a - 90, b - 90);
        } else if a < 270 {
            lemma_sine_table_ordered(a - 180, b - 180);
        } else {
            lemma_sine_table_ordered(a - 270, b - 270);
        }
    }
}

/// The signs of a heading tell its quarter of the turn.
pub proof fn lemma_quadrant(deg: int)
    requires
        0 <= deg < FULL_TURN,
    ensures
        0 <= deg < 90 ==> cosine(deg) > 0 && sine(deg) >= 0,
        90 <= deg < 180 ==> cosine(deg) <= 0 && sine(deg) > 0,
        180 <= deg < 270 ==> cosine(deg) < 0 && sine(deg) <= 0,
        270 <= deg < 360 ==> cosine(deg) >= 0 && sine(deg) < 0,
{
    lemma_sine_table_rises(0);
    if deg < 90 {
        lemma_sine_table_ordered(0, 90 - deg);
        if deg > 0 {
            lemma_sine_table_ordered(0, deg);
        }
    } else if deg < 180 {
        lemma_sine_table_ordered(0, 180 - deg);
        if deg > 90 {
            lemma_sine_table_ordered(0, deg - 90);
        }
    } else if deg < 270 {
        lemma_sine_table_ordered(0, 270 - deg);
        if deg > 180 {
            lemma_sine_table_ordered(0, deg - 180);
        }
    } else {
        lemma_sine_table_ordered(0, 360 - deg);
        if deg > 270 {
            lemma_sine_table_ordered(0, deg - 270);
        }
    }
}

/// The table entries for two angles that add up to a quarter turn are
/// the two parts of a vector about `UNIT` long.
proof fn lemma_table_length(k: int)
    requires
        0 <= k <= 90,
    ensures
        (UNIT - 1) * (UNIT - 1) < sine_table(90 - k) * sine_table(90 - k) + sine_table(k)
            * sine_table(k) < (UNIT + 1) * (UNIT + 1),
{
    reveal(sine_table);
}

/// Cross and dot product of the vectors that the table gives for `k` and
/// for `k + 1` degrees.
proof fn lemma_table_step(k: int)
    requires
        0 <= k < 90,
    ensures
        57 * (sine_table(90 - k) * sine_table(k + 1) - sine_table(k) * sine_table(89 - k)) < UNIT
            * UNIT,
        UNIT * UNIT < 58 * (sine_table(90 - k) * sine_table(k + 1) - sine_table(k) * sine_table(
            89 - k,
        )),
        sine_table(90 - k) * sine_table(89 - k) + sine_table(k) * sine_table(k + 1) > 0,
{
    reveal(sine_table);
}

/// Every heading is `UNIT` long to within one: its length lies strictly
/// between `UNIT - 1` and `UNIT + 1`.
pub proof fn lemma_heading_length(deg: int)
    requires
        0 <= deg < FULL_TURN,
    ensures
        (UNIT - 1) * (UNIT - 1) < heading(deg).norm2() < (UNIT + 1) * (UNIT + 1),
{
    lemma_heading_fits(deg);
    let k = deg % 90;
    let (c, s) = (sine_table(90 - k), sine_table(k));
    lemma_table_length(k);
    assert((-c) * (-c) == c * c && (-s) * (-s) == s * s) by (nonlinear_arith);
}

/// From each whole degree to the next the heading turns to the left by
/// an even step: the cross product of a heading with the next lies
/// between a 58th and a 57th of `UNIT` squared. For vectors `UNIT` long
/// that is a turn whose sine is about one in 57.3, the sine of a degree.
/// So the headings go round once, without a gap and without overlap.
pub proof fn lemma_heading_step(deg: int)
    requires
        0 <= deg < FULL_TURN,
    ensures
        57 * heading(deg).cross(heading((deg + 1) % (FULL_TURN as int))) < UNIT * UNIT,
        UNIT * UNIT < 58 * heading(deg).cross(heading((deg + 1) % (FULL_TURN as int))),
        heading(deg).dot(heading((deg + 1) % (FULL_TURN as int))) > 0,
{
    let next = (deg + 1) % 360;
    lemma_heading_fits(deg);
    lemma_heading_fits(next);
    let k = deg % 90;
    let (c0, s0) = (sine_table(90 - k), sine_table(k));
    let (c1, s1) = (sine_table(89 - k), sine_table(k + 1));
    lemma_table_step(k);
    lemma_sine_table_rises(0);
    let v = heading(deg);
    let w = heading(next);
    if deg < 90 {
        assert(v.dx == c0 && v.dy == s0 && w.dx == c1 && w.dy == s1);
    } else if deg < 180 {
        assert(v.dx == -s0 && v.dy == c0 && w.dx == -s1 && w.dy == c1);
        assert((-s0) * c1 - c0 * (-s1) == c0 * s1 - s0 * c1 && (-s0) * (-s1) + c0 * c1 == c0 * c1
            + s0 * s1) by (nonlinear_arith);
    } else if deg < 270 {
        assert(v.dx == -c0 && v.dy == -s0 && w.dx == -c1 && w.dy == -s1);
        assert((-c0) * (-s1) - (-s0) * (-c1) == c0 * s1 - s0 * c1 && (-c0) * (-c1) + (-s0) * (-s1)
            == c0 * c1 + s0 * s1) by (nonlinear_arith);
    } else {
        assert(v.dx == s0 && v.dy == -c0 && w.dx == s1 && w.dy == -c1);
        assert(s0 * (-c1) - (-c0) * s1 == c0 * s1 - s0 * c1 && s0 * s1 + (-c0) * (-c1) == c0 * c1
            + s0 * s1) by (nonlinear_arith);
    }
}

} // verus!
