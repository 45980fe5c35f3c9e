//! Scalar fields over the grid, which say how tall the tree of a cell is.

use crate::scalar::distance;
use crate::scalar::distance_of;
use crate::scalar::floor_div;
use crate::scalar::is_sqrt_floor;
use crate::scalar::isqrt;
use crate::scalar::lemma_sqrt_floor;
use crate::scalar::lemma_sqrt_floor_is;
use crate::scalar::lemma_sqrt_floor_monotone;
use crate::scalar::sqrt_floor;
use crate::scalar::square_sum;
use crate::scalar::UNIT;
use vstd::prelude::*;

verus! {

/// A scalar field over the grid.
pub trait Generator {
    /// The field's value at the cell `(x, z)`, as a scalar. An implementation
    /// answers for every cell, and gives one cell the same value every time.
    fn compute(&self, x: i32, z: i32) -> i64;
}

/// The value of a crater over a map `width` by `depth` at the cell `(x, z)`:
/// how far the cell lies from the origin, as a share of the map's diagonal,
/// rounded down.
///
/// A map of no extent has no diagonal to measure by: there the origin has
/// the value zero and every other cell the largest scalar.
pub open spec fn crater_value(width: int, depth: int, x: int, z: int) -> int {
    let reach = width * width + depth * depth;
    let far = x * x + z * z;
    if reach == 0 {
        if far == 0 {
            0
        } else {
            i64::MAX as int
        }
    } else {
        sqrt_floor((far * (UNIT * UNIT) / reach) as nat) as int
    }
}

/// A field that rises from the origin outwards, like the wall of a crater.
pub struct CraterGenerator {
    /// How wide the map is.
    width: i32,
    /// How deep the map is.
    depth: i32,
    /// How many sizes of tree there are.
    levels: i32,
}

impl CraterGenerator {
    pub closed spec fn spec_width(self) -> i32 {
        self.width
    }

    pub closed spec fn spec_depth(self) -> i32 {
        self.depth
    }

    pub closed spec fn spec_levels(self) -> i32 {
        self.levels
    }

    /// The field's value at the cell `(x, z)`.
    pub open spec fn value(self, x: int, z: int) -> int {
        crater_value(self.spec_width() as int, self.spec_depth() as int, x, z)
    }

    pub fn new(width: i32, depth: i32, levels: i32) -> (g: Self)
        ensures
            g.spec_width() == width,
            g.spec_depth() == depth,
            g.spec_levels() == levels,
    {
        Self { width, depth, levels }
    }
}

impl Generator for CraterGenerator {
    fn compute(&self, x: i32, z: i32) -> (r: i64)
        ensures
            r == self.value(x as int, z as int),
    {
        let reach: u128 = square_sum(self.width, self.depth);
        let far: u128 = square_sum(x, z);
        if reach == 0 {
            if far == 0 {
                0
            } else {
                i64::MAX
            }
        } else {
            let n: u128 = far * 1_000_000_000_000 / reach;
            let r: u64 = isqrt(n);
            assert(r < 0x10_0000_0000_0000) by (nonlinear_arith)
                requires
                    r * r <= n,
                    n <= 0x8000_0000_0000_0000 * 1_000_000_000_000,
            ;
            r as i64
        }
    }
}

/// At the origin a crater is zero deep, whatever the map.
pub proof fn lemma_crater_origin(width: int, depth: int)
    ensures
        crater_value(width, depth, 0, 0) == 0,
{
    let reach = width * width + depth * depth;
    if reach != 0 {
        assert(0 * (UNIT * UNIT) / reach == 0) by (nonlinear_arith)
            requires
                reach != 0,
        ;
        assert(is_sqrt_floor(0, 0)) by (nonlinear_arith);
        lemma_sqrt_floor_is(0, 0);
    }
}

/// A crater is above zero as far as a scalar can tell: at every cell that
/// lies at least a millionth of the map's diagonal from the origin.
pub proof fn lemma_crater_positive(width: int, depth: int, x: int, z: int)
    requires
        width != 0 || depth != 0,
    ensures
        0 <= crater_value(width, depth, x, z),
        0 < crater_value(width, depth, x, z) <==> width * width + depth * depth <= (x * x + z
            * z) * (UNIT * UNIT),
{
    let reach = width * width + depth * depth;
    let far = x * x + z * z;
    assert(reach > 0 && far >= 0) by (nonlinear_arith)
        requires
            reach == width * width + depth * depth,
            far == x * x + z * z,
            width != 0 || depth != 0,
    ;
    let n = far * (UNIT * UNIT) / reach;
    assert(0 <= n && (1 <= n <==> reach <= far * (UNIT * UNIT))) by (nonlinear_arith)
        requires
            n == far * (UNIT * UNIT) / reach,
            reach > 0,
            far >= 0,
    ;
    lemma_sqrt_floor(n as nat);
    let r = sqrt_floor(n as nat);
    assert(r == 0 ==> n < 1) by (nonlinear_arith)
        requires
            n < (r + 1) * (r + 1),
    ;
    assert(r > 0 ==> n >= 1) by (nonlinear_arith)
        requires
            r * r <= n,
    ;
}

/// At the cell as far out as the map is wide and deep a crater is one.
pub proof fn lemma_crater_rim(width: int, depth: int)
    requires
        width != 0 || depth != 0,
    ensures
        crater_value(width, depth, width, depth) == UNIT,
{
    let reach = width * width + depth * depth;
    assert(reach > 0) by (nonlinear_arith)
        requires
            reach == width * width + depth * depth,
            width != 0 || depth != 0,
    ;
    assert(reach * (UNIT * UNIT) / reach == UNIT * UNIT) by (nonlinear_arith)
        requires
            reach > 0,
    ;
    assert(is_sqrt_floor(1_000_000_000_000, 1_000_000)) by (nonlinear_arith);
    lemma_sqrt_floor_is(1_000_000_000_000, 1_000_000);
}

/// Half as far out as the map is wide and deep, which is where a walk over
/// the map has its corners, a crater is a half.
pub proof fn lemma_crater_corner(width: int, depth: int, x: int, z: int)
    requires
        width != 0 || depth != 0,
        width == 2 * x,
        depth == 2 * z,
    ensures
        crater_value(width, depth, x, z) == UNIT / 2,
{
    let reach = width * width + depth * depth;
    let far = x * x + z * z;
    assert(reach == 4 * far && far > 0) by (nonlinear_arith)
        requires
            reach == width * width + depth * depth,
            far == x * x + z * z,
            width == 2 * x,
            depth == 2 * z,
            width != 0 || depth != 0,
    ;
    assert(far * (UNIT * UNIT) / reach == 250_000_000_000) by (nonlinear_arith)
        requires
            reach == 4 * far,
            far > 0,
    ;
    assert(is_sqrt_floor(250_000_000_000, 500_000)) by (nonlinear_arith);
    lemma_sqrt_floor_is(250_000_000_000, 500_000);
}

/// A crater never falls on the way out: a cell that lies at least as far
/// from the origin as another has at least its value.
pub proof fn lemma_crater_rises(width: int, depth: int, x1: int, z1: int, x2: int, z2: int)
    requires
        x1 * x1 + z1 * z1 <= x2 * x2 + z2 * z2,
    ensures
        crater_value(width, depth, x1, z1) <= crater_value(width, depth, x2, z2),
{
    let reach = width * width + depth * depth;
    let far1 = x1 * x1 + z1 * z1;
    let far2 = x2 * x2 + z2 * z2;
    assert(0 <= far1) by (nonlinear_arith)
        requires
            far1 == x1 * x1 + z1 * z1,
    ;
    if reach != 0 {
        assert(reach > 0) by (nonlinear_arith)
            requires
                reach == width * width + depth * depth,
                reach != 0,
        ;
        assert(0 <= far1 * (UNIT * UNIT) / reach <= far2 * (UNIT * UNIT) / reach)
            by (nonlinear_arith)
            requires
                0 <= far1 <= far2,
                reach > 0,
        ;
        lemma_sqrt_floor_monotone(
            (far1 * (UNIT * UNIT) / reach) as nat,
            (far2 * (UNIT * UNIT) / reach) as nat,
        );
    }
}

/// The value of a donut with its ridge at `radius`, at a cell that lies
/// `distance` from the origin: one over a third of the gap between the two,
/// or over one where the gap is under three, rounded down. Both arguments are
/// scalars.
pub open spec fn donut_value(radius: int, distance: int) -> int {
    let gap = if distance >= radius {
        distance - radius
    } else {
        radius - distance
    };
    let divisor = if gap > 3 * UNIT {
        gap
    } else {
        3 * UNIT
    };
    3 * UNIT * UNIT / divisor
}

/// A field with a ring-shaped ridge round the origin.
pub struct DonutGenerator {
    /// How wide the map is.
    width: i32,
    /// How deep the map is.
    depth: i32,
    /// How far from the origin the ridge runs, as a scalar.
    radius: i64,
}

impl DonutGenerator {
    pub closed spec fn spec_width(self) -> i32 {
        self.width
    }

    pub closed spec fn spec_depth(self) -> i32 {
        self.depth
    }

    pub closed spec fn spec_radius(self) -> i64 {
        self.radius
    }

    /// The field's value at the cell `(x, z)`.
    pub open spec fn value(self, x: int, z: int) -> int {
        donut_value(self.spec_radius() as int, distance_of(x, z) as int)
    }

    pub fn new(width: i32, depth: i32, radius: i64) -> (g: Self)
        ensures
            g.spec_width() == width,
            g.spec_depth() == depth,
            g.spec_radius() == radius,
    {
        Self { width, depth, radius }
    }
}

impl Generator for DonutGenerator {
    fn compute(&self, x: i32, z: i32) -> (r: i64)
        ensures
            r == self.value(x as int, z as int),
            0 <= r <= UNIT,
    {
        let d: i128 = distance(x, z) as i128;
        let ridge: i128 = self.radius as i128;
        let gap: i128 = if d >= ridge {
            d - ridge
        } else {
            ridge - d
        };
        let divisor: i128 = if gap > 3_000_000 {
            gap
        } else {
            3_000_000
        };
        let v: i128 = 3_000_000_000_000 / divisor;
        assert(0 <= v <= 1_000_000) by (nonlinear_arith)
            requires
                v == 3_000_000_000_000int / (divisor as int),
                divisor >= 3_000_000,
        ;
        v as i64
    }
}

/// A donut is one on its ridge and within three of it, and lower everywhere
/// else: one is the most it reaches.
pub proof fn lemma_donut_peak(radius: int, distance: int)
    ensures
        0 <= donut_value(radius, distance) <= UNIT,
        donut_value(radius, distance) == UNIT <==> radius - 3 * UNIT <= distance <= radius + 3
            * UNIT,
        distance == radius ==> donut_value(radius, distance) == UNIT,
{
    let gap = if distance >= radius {
        distance - radius
    } else {
        radius - distance
    };
    let divisor = if gap > 3 * UNIT {
        gap
    } else {
        3 * UNIT
    };
    assert(0 <= 3_000_000_000_000int / divisor <= 1_000_000) by (nonlinear_arith)
        requires
            divisor >= 3_000_000,
    ;
    assert(divisor > 3_000_000 ==> 3_000_000_000_000int / divisor < 1_000_000) by (nonlinear_arith);
    assert(divisor == 3_000_000 ==> 3_000_000_000_000int / divisor == 1_000_000) by (nonlinear_arith);
}

/// A donut is above zero as far as a scalar can tell: up to three million
/// from the ridge, where the value falls under a millionth and is rounded
/// down to nothing.
pub proof fn lemma_donut_positive(radius: int, distance: int)
    ensures
        0 < donut_value(radius, distance) <==> radius - 3 * UNIT * UNIT <= distance <= radius + 3
            * UNIT * UNIT,
{
    let gap = if distance >= radius {
        distance - radius
    } else {
        radius - distance
    };
    let divisor = if gap > 3 * UNIT {
        gap
    } else {
        3 * UNIT
    };
    assert(divisor <= 3_000_000_000_000 ==> 3_000_000_000_000int / divisor >= 1)
        by (nonlinear_arith)
        requires
            divisor >= 3_000_000,
    ;
    assert(divisor > 3_000_000_000_000 ==> 3_000_000_000_000int / divisor == 0)
        by (nonlinear_arith);
}

/// A donut never rises on the way from its ridge: of two distances, the one
/// with the wider gap to the ridge has the lower value, or the same.
pub proof fn lemma_donut_falls(radius: int, near: int, far: int)
    requires
        (if near >= radius {
            near - radius
        } else {
            radius - near
        }) <= (if far >= radius {
            far - radius
        } else {
            radius - far
        }),
    ensures
        donut_value(radius, far) <= donut_value(radius, near),
{
    let gap1 = if near >= radius {
        near - radius
    } else {
        radius - near
    };
    let gap2 = if far >= radius {
        far - radius
    } else {
        radius - far
    };
    let d1 = if gap1 > 3 * UNIT {
        gap1
    } else {
        3 * UNIT
    };
    let d2 = if gap2 > 3 * UNIT {
        gap2
    } else {
        3 * UNIT
    };
    assert(3_000_000_000_000int / d2 <= 3_000_000_000_000int / d1) by (nonlinear_arith)
        requires
            0 < d1 <= d2,
    ;
}

/// A field of rings round the origin, one wave after another.
///
/// The height of a wave is the sine of its phase, and a sine is not integer
/// arithmetic: this type gives the phase, and the caller takes the sine.
pub struct WaveGenerator {
    /// How wide the map is.
    width: i32,
    /// How deep the map is.
    depth: i32,
    /// How many sizes of tree there are.
    levels: i32,
    /// How fast the phase turns with the distance, as a scalar.
    frequency: i64,
}

impl WaveGenerator {
    pub closed spec fn spec_width(self) -> i32 {
        self.width
    }

    pub closed spec fn spec_depth(self) -> i32 {
        self.depth
    }

    pub closed spec fn spec_levels(self) -> i32 {
        self.levels
    }

    pub closed spec fn spec_frequency(self) -> i64 {
        self.frequency
    }

    /// The phase of the wave at the cell `(x, z)`: the cell's distance from
    /// the origin times the frequency, rounded down to a scalar.
    pub open spec fn spec_phase(self, x: int, z: int) -> int {
        distance_of(x, z) * self.spec_frequency() / (UNIT as int)
    }

    pub fn new(width: i32, depth: i32, levels: i32, frequency: i64) -> (g: Self)
        ensures
            g.spec_width() == width,
            g.spec_depth() == depth,
            g.spec_levels() == levels,
            g.spec_frequency() == frequency,
    {
        Self { width, depth, levels, frequency }
    }

    /// The phase of the wave at the cell `(x, z)`.
    pub fn phase(&self, x: i32, z: i32) -> (p: i128)
        ensures
            p == self.spec_phase(x as int, z as int),
    {
        let d: i128 = distance(x, z) as i128;
        let f: i128 = self.frequency as i128;
        assert(-0x10_0000_0000_0000 * 0x8000_0000_0000_0000 <= d * f <= 0x10_0000_0000_0000
            * 0x8000_0000_0000_0000) by (nonlinear_arith)
            requires
                0 <= d <= 0x10_0000_0000_0000,
                -0x8000_0000_0000_0000 <= f <= 0x8000_0000_0000_0000,
        ;
        floor_div(d * f, 1_000_000)
    }
}

/// Where a field of coherent noise is read for the grid coordinate `v`: the
/// coordinate moved up by fifty and divided by 20.1, rounded down to a
/// scalar. Fifty cells to either side of the origin then fall between zero
/// and five.
pub open spec fn spec_noise_coordinate(v: int) -> int {
    (v + 50) * (10 * UNIT) / 201
}

/// Where a field of coherent noise is read for the grid coordinate `v`.
pub fn noise_coordinate(v: i32) -> (c: i64)
    ensures
        c == spec_noise_coordinate(v as int),
{
    let moved: i128 = v as i128 + 50;
    let c: i128 = floor_div(moved * 10_000_000, 201);
    assert(-0x8000_0000 * 10_000_000 <= c <= 0x8000_0040 * 10_000_000) by (nonlinear_arith)
        requires
            c == moved * 10_000_000 / 201,
            -0x8000_0000 <= moved <= 0x8000_0040,
    ;
    c as i64
}

} // verus!
