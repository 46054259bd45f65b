//! Color algebra over fixed-point scalars.
//!
//! A color holds three raw fixed-point channels. During accumulation the
//! channels may grow far beyond the display range; arithmetic saturates at
//! `±CMAX` instead of overflowing. `reform` clamps a finished color into
//! the display range `[0, 255]`.

use vstd::prelude::*;
use crate::fixed::{SCALE, dtr, div_trunc, lemma_mul_bound};

verus! {

/// Saturation rail for color accumulation.
pub const CMAX: i64 = 0x4000_0000_0000_0000;

/// Largest raw channel value of a displayable color: 255 whole units.
pub const CHAN_MAX: i64 = 16711680;

/// Mathematical model of a `Color`: its raw channels as integers.
pub ghost struct C3 {
    pub r: int,
    pub g: int,
    pub b: int,
}

/// A value clamped to the accumulation range `[-CMAX, CMAX]`.
pub open spec fn sat_clamp(v: int) -> int {
    if v > CMAX as int {
        CMAX as int
    } else if v < -(CMAX as int) {
        -(CMAX as int)
    } else {
        v
    }
}

/// A channel clamped to the display range `[0, CHAN_MAX]`.
pub open spec fn chan_clamp(v: int) -> int {
    if (CHAN_MAX as int) < v {
        CHAN_MAX as int
    } else if v < 0 {
        0
    } else {
        v
    }
}

impl C3 {
    pub open spec fn cadd(self, o: C3) -> C3 {
        C3 { r: sat_clamp(self.r + o.r), g: sat_clamp(self.g + o.g), b: sat_clamp(self.b + o.b) }
    }

    pub open spec fn csub(self, o: C3) -> C3 {
        C3 { r: sat_clamp(self.r - o.r), g: sat_clamp(self.g - o.g), b: sat_clamp(self.b - o.b) }
    }

    /// Componentwise fixed-point product, saturated.
    pub open spec fn cmul(self, o: C3) -> C3 {
        C3 {
            r: sat_clamp(dtr(self.r * o.r, SCALE as int)),
            g: sat_clamp(dtr(self.g * o.g, SCALE as int)),
            b: sat_clamp(dtr(self.b * o.b, SCALE as int)),
        }
    }

    /// Fixed-point multiplication by the raw scalar `k`, saturated.
    pub open spec fn cmuls(self, k: int) -> C3 {
        C3 {
            r: sat_clamp(dtr(self.r * k, SCALE as int)),
            g: sat_clamp(dtr(self.g * k, SCALE as int)),
            b: sat_clamp(dtr(self.b * k, SCALE as int)),
        }
    }

    /// Fixed-point division by the positive raw scalar `k`, saturated.
    pub open spec fn cdivs(self, k: int) -> C3 {
        C3 {
            r: sat_clamp(dtr(self.r * SCALE as int, k)),
            g: sat_clamp(dtr(self.g * SCALE as int, k)),
            b: sat_clamp(dtr(self.b * SCALE as int, k)),
        }
    }

    /// Every channel clamped to the display range.
    pub open spec fn creform(self) -> C3 {
        C3 { r: chan_clamp(self.r), g: chan_clamp(self.g), b: chan_clamp(self.b) }
    }

    /// All channels inside the display range `[0, CHAN_MAX]`.
    pub open spec fn displayable(self) -> bool {
        &&& 0 <= self.r <= CHAN_MAX as int
        &&& 0 <= self.g <= CHAN_MAX as int
        &&& 0 <= self.b <= CHAN_MAX as int
    }

    /// All channels nonnegative (no negative light).
    pub open spec fn nonneg(self) -> bool {
        &&& 0 <= self.r
        &&& 0 <= self.g
        &&& 0 <= self.b
    }
}

/// Clamping a channel is idempotent, keeps in-range values unchanged, and
/// always lands in the display range; `creform` inherits all three, so
/// re-forming a color twice is the same as re-forming it once.
pub proof fn lemma_reform_idempotent(c: C3)
    ensures
        c.creform().creform() == c.creform(),
        c.creform().displayable(),
        c.displayable() ==> c.creform() == c,
{
}

/// An RGB color with raw fixed-point channels.
#[derive(Clone, Copy, Debug, PartialEq, Eq, Structural)]
pub struct Color {
    pub r: i64,
    pub g: i64,
    pub b: i64,
}

impl View for Color {
    type V = C3;

    open spec fn view(&self) -> C3 {
        C3 { r: self.r as int, g: self.g as int, b: self.b as int }
    }
}

/// A wide intermediate saturated into an `i64` channel.
fn sat(v: i128) -> (r: i64)
    ensures
        r as int == sat_clamp(v as int),
{
    if v > CMAX as i128 {
        CMAX
    } else if v < -(CMAX as i128) {
        -CMAX
    } else {
        v as i64
    }
}

impl Color {
    pub fn new(r: i64, g: i64, b: i64) -> (c: Color)
        ensures
            c@ == (C3 { r: r as int, g: g as int, b: b as int }),
    {
        Color { r, g, b }
    }

    /// The color whose channels are the three entries of `v`.
    pub fn from_vector(v: &Vec<i64>) -> (c: Color)
        requires
            v@.len() == 3,
        ensures
            c@ == (C3 { r: v@[0] as int, g: v@[1] as int, b: v@[2] as int }),
    {
        Color { r: v[0], g: v[1], b: v[2] }
    }

    /// The color whose channels are the three entries of `l`.
    pub fn from_list(l: [i64; 3]) -> (c: Color)
        ensures
            c@ == (C3 { r: l@[0] as int, g: l@[1] as int, b: l@[2] as int }),
    {
        Color { r: l[0], g: l[1], b: l[2] }
    }

    /// The color of one decoded texture pixel: each 8-bit channel taken as
    /// a whole number of display units.
    pub fn from_pixel(pixel: &[u8; 3]) -> (c: Color)
        ensures
            c@ == (C3 {
                r: pixel@[0] * SCALE as int,
                g: pixel@[1] * SCALE as int,
                b: pixel@[2] * SCALE as int,
            }),
            c@.displayable(),
    {
        Color {
            r: (pixel[0] as i64) * SCALE,
            g: (pixel[1] as i64) * SCALE,
            b: (pixel[2] as i64) * SCALE,
        }
    }

    /// Every channel clamped to the display range `[0, 255]`.
    pub fn reform(&self) -> (c: Color)
        ensures
            c@ == self@.creform(),
            c@.displayable(),
    {
        let r = if CHAN_MAX < self.r {
            CHAN_MAX
        } else if self.r < 0 {
            0
        } else {
            self.r
        };
        let g = if CHAN_MAX < self.g {
            CHAN_MAX
        } else if self.g < 0 {
            0
        } else {
            self.g
        };
        let b = if CHAN_MAX < self.b {
            CHAN_MAX
        } else if self.b < 0 {
            0
        } else {
            self.b
        };
        Color { r, g, b }
    }

    /// Black: no light on any channel.
    pub fn zeros() -> (c: Color)
        ensures
            c@ == (C3 { r: 0, g: 0, b: 0 }),
    {
        Color { r: 0, g: 0, b: 0 }
    }

    /// One whole unit on every channel.
    pub fn ones() -> (c: Color)
        ensures
            c@ == (C3 { r: SCALE as int, g: SCALE as int, b: SCALE as int }),
    {
        Color { r: SCALE, g: SCALE, b: SCALE }
    }

    /// Componentwise saturating sum.
    pub fn add(&self, o: &Color) -> (c: Color)
        ensures
            c@ == self@.cadd(o@),
    {
        Color {
            r: sat(self.r as i128 + o.r as i128),
            g: sat(self.g as i128 + o.g as i128),
            b: sat(self.b as i128 + o.b as i128),
        }
    }

    /// Componentwise saturating difference.
    pub fn sub(&self, o: &Color) -> (c: Color)
        ensures
            c@ == self@.csub(o@),
    {
        Color {
            r: sat(self.r as i128 - o.r as i128),
            g: sat(self.g as i128 - o.g as i128),
            b: sat(self.b as i128 - o.b as i128),
        }
    }

    /// Componentwise saturating fixed-point product.
    pub fn mul(&self, o: &Color) -> (c: Color)
        ensures
            c@ == self@.cmul(o@),
    {
        proof {
            lemma_mul_bound(self@.r, o@.r, 0x8000_0000_0000_0000, 0x8000_0000_0000_0000);
            lemma_mul_bound(self@.g, o@.g, 0x8000_0000_0000_0000, 0x8000_0000_0000_0000);
            lemma_mul_bound(self@.b, o@.b, 0x8000_0000_0000_0000, 0x8000_0000_0000_0000);
        }
        Color {
            r: sat(div_trunc((self.r as i128) * (o.r as i128), SCALE as i128)),
            g: sat(div_trunc((self.g as i128) * (o.g as i128), SCALE as i128)),
            b: sat(div_trunc((self.b as i128) * (o.b as i128), SCALE as i128)),
        }
    }

    /// Saturating fixed-point multiplication by the scalar `k`.
    pub fn muls(&self, k: i64) -> (c: Color)
        ensures
            c@ == self@.cmuls(k as int),
    {
        proof {
            lemma_mul_bound(self@.r, k as int, 0x8000_0000_0000_0000, 0x8000_0000_0000_0000);
            lemma_mul_bound(self@.g, k as int, 0x8000_0000_0000_0000, 0x8000_0000_0000_0000);
            lemma_mul_bound(self@.b, k as int, 0x8000_0000_0000_0000, 0x8000_0000_0000_0000);
        }
        Color {
            r: sat(div_trunc((self.r as i128) * (k as i128), SCALE as i128)),
            g: sat(div_trunc((self.g as i128) * (k as i128), SCALE as i128)),
            b: sat(div_trunc((self.b as i128) * (k as i128), SCALE as i128)),
        }
    }

    /// Componentwise saturating fixed-point quotient, for positive
    /// divisor channels.
    pub fn div(&self, o: &Color) -> (c: Color)
        requires
            o.r > 0,
            o.g > 0,
            o.b > 0,
        ensures
            c@ == (C3 {
                r: sat_clamp(dtr(self@.r * SCALE as int, o@.r)),
                g: sat_clamp(dtr(self@.g * SCALE as int, o@.g)),
                b: sat_clamp(dtr(self@.b * SCALE as int, o@.b)),
            }),
    {
        proof {
            lemma_mul_bound(self@.r, SCALE as int, 0x8000_0000_0000_0000, 65536);
            lemma_mul_bound(self@.g, SCALE as int, 0x8000_0000_0000_0000, 65536);
            lemma_mul_bound(self@.b, SCALE as int, 0x8000_0000_0000_0000, 65536);
        }
        Color {
            r: sat(div_trunc((self.r as i128) * (SCALE as i128), o.r as i128)),
            g: sat(div_trunc((self.g as i128) * (SCALE as i128), o.g as i128)),
            b: sat(div_trunc((self.b as i128) * (SCALE as i128), o.b as i128)),
        }
    }

    /// Saturating fixed-point division by the positive scalar `k`.
    pub fn divs(&self, k: i64) -> (c: Color)
        requires
            k > 0,
        ensures
            c@ == self@.cdivs(k as int),
    {
        proof {
            lemma_mul_bound(self@.r, SCALE as int, 0x8000_0000_0000_0000, 65536);
            lemma_mul_bound(self@.g, SCALE as int, 0x8000_0000_0000_0000, 65536);
            lemma_mul_bound(self@.b, SCALE as int, 0x8000_0000_0000_0000, 65536);
        }
        Color {
            r: sat(div_trunc((self.r as i128) * (SCALE as i128), k as i128)),
            g: sat(div_trunc((self.g as i128) * (SCALE as i128), k as i128)),
            b: sat(div_trunc((self.b as i128) * (SCALE as i128), k as i128)),
        }
    }
}

} // verus!
