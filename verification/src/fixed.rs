//! The scalar element type of the layer: a fixed-point number.
//!
//! A value is the rational `raw / FX_SCALE`, with `raw` a machine integer.
//! Sums are exact; a product is rescaled by `FX_SCALE` and rounded toward
//! zero. Working on raw units keeps every contract an exact statement over
//! mathematical integers.

use vstd::prelude::*;

verus! {

/// Number of raw units that make up the value one.
pub const FX_SCALE: i64 = 65536;

/// A fixed-point scalar; its mathematical content is `raw / FX_SCALE`.
///
/// The view of an `Fx` is its raw count as an `int`: all contracts in this
/// crate speak of raw units.
#[derive(Clone, Copy, PartialEq, Eq, Structural, Debug)]
pub struct Fx {
    pub raw: i64,
}

impl View for Fx {
    type V = int;

    open spec fn view(&self) -> int {
        self.raw as int
    }
}

/// The raw counts of a sequence of scalars.
pub open spec fn vals(s: Seq<Fx>) -> Seq<int> {
    s.map_values(|f: Fx| f@)
}

/// Whether a mathematical integer fits into the raw representation.
pub open spec fn fits(x: int) -> bool {
    i64::MIN <= x <= i64::MAX
}

/// Raw count of the product of two scalars given by raw counts:
/// `(a * b) / FX_SCALE`, rounded toward zero.
pub open spec fn fx_mul(a: int, b: int) -> int {
    if a * b >= 0 {
        (a * b) / (FX_SCALE as int)
    } else {
        -((-(a * b)) / (FX_SCALE as int))
    }
}

impl Fx {
    /// The scalar with the given raw count.
    pub fn from_raw(raw: i64) -> (r: Fx)
        ensures
            r@ == raw as int,
    {
        Fx { raw }
    }

    /// The additive identity.
    pub fn zero() -> (r: Fx)
        ensures
            r@ == 0,
    {
        Fx { raw: 0 }
    }

    /// The multiplicative identity.
    pub fn one() -> (r: Fx)
        ensures
            r@ == FX_SCALE as int,
    {
        Fx { raw: FX_SCALE }
    }

    /// Exact sum.
    pub fn add(self, other: Fx) -> (r: Fx)
        requires
            fits(self@ + other@),
        ensures
            r@ == self@ + other@,
    {
        Fx { raw: self.raw + other.raw }
    }

    /// Exact difference.
    pub fn sub(self, other: Fx) -> (r: Fx)
        requires
            fits(self@ - other@),
        ensures
            r@ == self@ - other@,
    {
        Fx { raw: self.raw - other.raw }
    }

    /// Rescaled product, rounded toward zero.
    pub fn mul(self, other: Fx) -> (r: Fx)
        requires
            fits(fx_mul(self@, other@)),
        ensures
            r@ == fx_mul(self@, other@),
    {
        proof {
            assert(self@ * other@ <= i64::MIN * i64::MIN && i64::MIN * i64::MAX <= self@ * other@)
                by (nonlinear_arith)
                requires
                    i64::MIN <= self@ <= i64::MAX,
                    i64::MIN <= other@ <= i64::MAX,
            ;
        }
        let p: i128 = (self.raw as i128) * (other.raw as i128);
        let raw: i64 = if p >= 0 {
            let q: u128 = (p as u128) / (FX_SCALE as u128);
            proof {
                assert(p as u128 == self@ * other@);
                assert(q == fx_mul(self@, other@));
            }
            q as i64
        } else {
            let n: i128 = -p;
            let q: u128 = (n as u128) / (FX_SCALE as u128);
            proof {
                assert(n as u128 == -(self@ * other@));
                assert(q == -fx_mul(self@, other@));
            }
            let qi: i128 = -(q as i128);
            qi as i64
        };
        Fx { raw }
    }
}

} // verus!
