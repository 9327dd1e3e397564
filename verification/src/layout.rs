//! The traveling-salesman map: a grid of locations, placed either
//! uniformly at random or evenly spaced on a circle.  The circle
//! placement is fully deterministic; its sine is Bhaskara's rational
//! approximation in fixed point, since the placement only needs
//! pixel-level accuracy and integer arithmetic keeps it verifiable.

use vstd::prelude::*;
use crate::entropy::EntropySource;
use crate::entropy::draw_below;

verus! {

/// The fixed-point scale of the sine: `65536` stands for one.
pub const SIN_ONE: u64 = 65536;

/// Bhaskara's sine approximation for an angle `t` in millidegrees,
/// `0 <= t <= 180000`, scaled by `SIN_ONE`:
/// `sin t ~ 4t(180 - t) / (40500 - t(180 - t))` with `t` in degrees.
pub open spec fn sin_half_spec(t: int) -> int {
    4 * t * (180000 - t) * 65536 / (40500000000 - t * (180000 - t))
}

/// The magnitude of the sine of `t` in `[0, 360000)` millidegrees.
pub open spec fn sin_mag_spec(t: int) -> int {
    if t < 180000 {
        sin_half_spec(t)
    } else {
        sin_half_spec(t - 180000)
    }
}

/// Whether the sine of `t` in `[0, 360000)` millidegrees is negative.
pub open spec fn sin_is_neg(t: int) -> bool {
    t >= 180000
}

/// The sine magnitude and sign, in fixed point.
fn sin_mag(t: u64) -> (r: (bool, u64))
    requires
        t < 360000,
    ensures
        r.0 == sin_is_neg(t as int),
        r.1 == sin_mag_spec(t as int),
        r.1 <= SIN_ONE,
{
    let neg = t >= 180000;
    let tt = if neg {
        t - 180000
    } else {
        t
    };
    proof {
        assert(tt * (180000 - tt) <= 8100000000) by (nonlinear_arith)
            requires 0 <= tt < 180000;
    }
    let p = tt * (180000 - tt);
    let num = 4 * p * 65536;
    let den = 40500000000 - p;
    let mag = num / den;
    proof {
        assert(num <= den * 65536) by (nonlinear_arith)
            requires num == 4 * p * 65536, den == 40500000000 - p, p <= 8100000000;
        assert(mag <= 65536) by (nonlinear_arith)
            requires num <= den * 65536, den >= 1, mag == (num as int) / (den as int);
        assert((num as int) == 4 * (tt as int) * (180000 - (tt as int)) * 65536)
            by (nonlinear_arith)
            requires
                (p as int) == (tt as int) * (180000 - (tt as int)),
                (num as int) == 4 * (p as int) * 65536,
        ;
        assert(mag == sin_half_spec(tt as int));
    }
    (neg, mag)
}

/// The distance from the circle's centre along one axis, for a sine
/// magnitude `mag` and a half-extent `m`: the radius is `4/5 * m` and
/// the product is truncated toward zero in one fixed-point step.
pub open spec fn offset_spec(mag: int, m: int) -> int {
    mag * (4 * m) / 327680
}

proof fn lemma_offset_bounds(mag: int, m: int)
    requires
        0 <= mag <= 65536,
        0 <= m,
    ensures
        0 <= offset_spec(mag, m),
        m == 0 ==> offset_spec(mag, m) == 0,
        m >= 1 ==> offset_spec(mag, m) < m,
{
    assert(mag * (4 * m) >= 0) by (nonlinear_arith)
        requires mag >= 0, m >= 0;
    assert(mag * (4 * m) <= 262144 * m) by (nonlinear_arith)
        requires 0 <= mag <= 65536, 0 <= m;
    assert(mag * (4 * m) / 327680 >= 0) by (nonlinear_arith)
        requires mag * (4 * m) >= 0;
    if m == 0 {
        assert(offset_spec(mag, m) == 0) by (nonlinear_arith)
            requires m == 0, 0 <= mag;
    }
    if m >= 1 {
        assert(mag * (4 * m) / 327680 <= 262144 * m / 327680) by (nonlinear_arith)
            requires 0 <= mag * (4 * m) <= 262144 * m;
        assert(262144 * m / 327680 < m) by (nonlinear_arith)
            requires m >= 1;
    }
}

/// The angle of point `i` of `number`, in millidegrees: evenly spaced
/// steps of a full turn.
pub open spec fn angle_of(i: int, number: int) -> int {
    i * 360000 / number
}

/// The x coordinate of circle point `i`: the centre plus the sine
/// offset, measuring the angle from the upward axis.
pub open spec fn circle_x_spec(width: int, height: int, number: int, i: int) -> int {
    let c = width / 2;
    let m = if width / 2 <= height / 2 {
        width / 2
    } else {
        height / 2
    };
    let t = angle_of(i, number);
    if sin_is_neg(t) {
        c - offset_spec(sin_mag_spec(t), m)
    } else {
        c + offset_spec(sin_mag_spec(t), m)
    }
}

/// The y coordinate of circle point `i`: the centre plus the cosine
/// offset, the cosine being the sine a quarter turn ahead.
pub open spec fn circle_y_spec(width: int, height: int, number: int, i: int) -> int {
    let c = height / 2;
    let m = if width / 2 <= height / 2 {
        width / 2
    } else {
        height / 2
    };
    let t = angle_of(i, number);
    let u = if t + 90000 >= 360000 {
        t + 90000 - 360000
    } else {
        t + 90000
    };
    if sin_is_neg(u) {
        c - offset_spec(sin_mag_spec(u), m)
    } else {
        c + offset_spec(sin_mag_spec(u), m)
    }
}

/// Places `number` locations uniformly at random on the grid.
fn random_layout<E: EntropySource>(width: u8, height: u8, number: u8, src: &mut E) -> (locs: Vec<
    u8,
>)
    requires
        width >= 1,
        height >= 1,
    ensures
        locs@.len() == 2 * number,
        forall|k: int| 0 <= k < number ==> #[trigger] locs@[2 * k] < width,
        forall|k: int| 0 <= k < number ==> #[trigger] locs@[2 * k + 1] < height,
{
    let mut locs: Vec<u8> = Vec::new();
    let mut i: u16 = 0;
    while i < number as u16
        invariant
            width >= 1,
            height >= 1,
            0 <= i <= number,
            locs@.len() == 2 * i,
            forall|k: int| 0 <= k < i ==> #[trigger] locs@[2 * k] < width,
            forall|k: int| 0 <= k < i ==> #[trigger] locs@[2 * k + 1] < height,
        decreases number - i,
    {
        let x = draw_below(src, width as u64) as u8;
        let y = draw_below(src, height as u64) as u8;
        locs.push(x);
        locs.push(y);
        i = i + 1;
    }
    locs
}

/// Places `number` locations evenly spaced on a circle centred on the
/// grid, with radius `4/5` of the smaller half-extent.
fn circle_layout(width: u8, height: u8, number: u8) -> (locs: Vec<u8>)
    requires
        width >= 1,
        height >= 1,
    ensures
        locs@.len() == 2 * number,
        forall|k: int|
            0 <= k < number ==> #[trigger] locs@[2 * k] == circle_x_spec(
                width as int,
                height as int,
                number as int,
                k,
            ),
        forall|k: int|
            0 <= k < number ==> #[trigger] locs@[2 * k + 1] == circle_y_spec(
                width as int,
                height as int,
                number as int,
                k,
            ),
        forall|k: int| 0 <= k < number ==> #[trigger] locs@[2 * k] < width,
        forall|k: int| 0 <= k < number ==> #[trigger] locs@[2 * k + 1] < height,
{
    let cx = (width / 2) as u64;
    let cy = (height / 2) as u64;
    let m = if cx <= cy {
        cx
    } else {
        cy
    };
    let radius4 = 4 * m;

    let mut locs: Vec<u8> = Vec::new();
    let mut i: u16 = 0;
    while i < number as u16
        invariant
            width >= 1,
            height >= 1,
            cx == width as int / 2,
            cy == height as int / 2,
            m == (if width as int / 2 <= height as int / 2 {
                width as int / 2
            } else {
                height as int / 2
            }),
            radius4 == 4 * m,
            0 <= i <= number,
            locs@.len() == 2 * i,
            forall|k: int|
                0 <= k < i ==> #[trigger] locs@[2 * k] == circle_x_spec(
                    width as int,
                    height as int,
                    number as int,
                    k,
                ),
            forall|k: int|
                0 <= k < i ==> #[trigger] locs@[2 * k + 1] == circle_y_spec(
                    width as int,
                    height as int,
                    number as int,
                    k,
                ),
            forall|k: int| 0 <= k < i ==> #[trigger] locs@[2 * k] < width,
            forall|k: int| 0 <= k < i ==> #[trigger] locs@[2 * k + 1] < height,
        decreases number - i,
    {
        proof {
            assert((i as int) * 360000 / (number as int) < 360000) by (nonlinear_arith)
                requires 0 <= (i as int), (i as int) < (number as int);
            assert((i as int) * 360000 >= 0) by (nonlinear_arith)
                requires 0 <= (i as int);
            assert((i as int) * 360000 / (number as int) >= 0) by (nonlinear_arith)
                requires (i as int) * 360000 >= 0, (number as int) >= 1;
            assert((i as int) * 360000 <= 65535 * 360000) by (nonlinear_arith)
                requires 0 <= (i as int) <= 65535;
        }
        let t = (i as u64) * 360000 / (number as u64);
        let (negx, magx) = sin_mag(t);
        let u = if t + 90000 >= 360000 {
            t + 90000 - 360000
        } else {
            t + 90000
        };
        let (negy, magy) = sin_mag(u);

        proof {
            lemma_offset_bounds(magx as int, m as int);
            lemma_offset_bounds(magy as int, m as int);
            assert(2 * (width as int / 2) <= width as int) by (nonlinear_arith)
                requires (width as int) >= 0;
            assert(2 * (height as int / 2) <= height as int) by (nonlinear_arith)
                requires (height as int) >= 0;
        }
        let offx = magx * radius4 / 327680;
        let offy = magy * radius4 / 327680;
        let x = if negx {
            cx - offx
        } else {
            cx + offx
        };
        let y = if negy {
            cy - offy
        } else {
            cy + offy
        };
        locs.push(x as u8);
        locs.push(y as u8);
        proof {
            assert(locs@[2 * (i as int)] == circle_x_spec(
                width as int,
                height as int,
                number as int,
                i as int,
            ));
            assert(locs@[2 * (i as int) + 1] == circle_y_spec(
                width as int,
                height as int,
                number as int,
                i as int,
            ));
        }
        i = i + 1;
    }
    locs
}

/// How the locations of a map are placed.
#[derive(Debug, Clone, Copy, PartialEq, Eq, Structural)]
pub enum LocationLayout {
    Random,
    Circle,
}

impl LocationLayout {
    fn layout<E: EntropySource>(&self, width: u8, height: u8, number: u8, src: &mut E) -> (locs:
        Vec<u8>)
        requires
            width >= 1,
            height >= 1,
        ensures
            locs@.len() == 2 * number,
            forall|k: int| 0 <= k < number ==> #[trigger] locs@[2 * k] < width,
            forall|k: int| 0 <= k < number ==> #[trigger] locs@[2 * k + 1] < height,
            *self == LocationLayout::Circle ==> forall|k: int|
                0 <= k < number ==> #[trigger] locs@[2 * k] == circle_x_spec(
                    width as int,
                    height as int,
                    number as int,
                    k,
                ) && locs@[2 * k + 1] == circle_y_spec(
                    width as int,
                    height as int,
                    number as int,
                    k,
                ),
    {
        match self {
            LocationLayout::Random => random_layout(width, height, number, src),
            LocationLayout::Circle => circle_layout(width, height, number),
        }
    }
}

/// The map of one traveling-salesman run: its extent and the flat
/// buffer of location coordinates, `x` then `y` for each location.
pub struct TourMap {
    pub width: u8,
    pub height: u8,
    pub locations: Vec<u8>,
}

impl TourMap {
    /// Each location lies on the grid, and the buffer holds whole
    /// coordinate pairs.
    pub open spec fn wf(self) -> bool {
        &&& self.width >= 1
        &&& self.height >= 1
        &&& self.locations@.len() % 2 == 0
        &&& self.locations@.len() <= 510
        &&& forall|k: int|
            0 <= 2 * k < self.locations@.len() ==> #[trigger] self.locations@[2 * k] < self.width
        &&& forall|k: int|
            0 <= 2 * k + 1 < self.locations@.len() ==> #[trigger] self.locations@[2 * k + 1]
                < self.height
    }

    /// How many locations the map holds.
    pub open spec fn spec_location_count(self) -> int {
        self.locations@.len() as int / 2
    }

    /// Builds a map and places its locations once; they are immutable
    /// afterwards.
    pub fn new<E: EntropySource>(
        width: u8,
        height: u8,
        number: u8,
        layout: LocationLayout,
        src: &mut E,
    ) -> (map: TourMap)
        requires
            width >= 1,
            height >= 1,
        ensures
            map.wf(),
            map.width == width,
            map.height == height,
            map.locations@.len() == 2 * number,
            map.spec_location_count() == number,
            layout == LocationLayout::Circle ==> forall|k: int|
                0 <= k < number ==> #[trigger] map.locations@[2 * k] == circle_x_spec(
                    width as int,
                    height as int,
                    number as int,
                    k,
                ) && map.locations@[2 * k + 1] == circle_y_spec(
                    width as int,
                    height as int,
                    number as int,
                    k,
                ),
    {
        let locations = layout.layout(width, height, number, src);
        TourMap { width, height, locations }
    }

    pub fn width(&self) -> (w: u8)
        ensures
            w == self.width,
    {
        self.width
    }

    pub fn height(&self) -> (h: u8)
        ensures
            h == self.height,
    {
        self.height
    }

    /// The raw coordinate buffer, as a read-only view.
    pub fn locations(&self) -> (locs: &Vec<u8>)
        ensures
            locs@ == self.locations@,
    {
        &self.locations
    }

    /// The number of locations.
    pub fn location_count(&self) -> (n: usize)
        ensures
            n == self.spec_location_count(),
    {
        self.locations.len() / 2
    }

    /// The coordinate pair of one location.
    pub fn coords(&self, location_idx: usize) -> (c: (u8, u8))
        requires
            2 * location_idx + 1 < self.locations@.len(),
        ensures
            c.0 == self.locations@[2 * location_idx],
            c.1 == self.locations@[2 * location_idx + 1],
    {
        proof {
            broadcast use vstd::std_specs::vec::axiom_spec_len;

            assert(self.locations.len() == self.locations@.len());
        }
        (self.locations[2 * location_idx], self.locations[2 * location_idx + 1])
    }
}

} // verus!
