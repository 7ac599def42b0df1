//! The scalar type the numeric kernels are generic over.
use vstd::prelude::*;

verus! {

/// A floating-point scalar. Every operation is named by a spec function, so
/// the contracts of the kernels say exactly which operations they apply, to
/// which operands and in which order; what an operation computes is the
/// implementing type's own business (IEEE arithmetic for `f32` and `f64`).
/// The one thing assumed of an implementation is that each operation is a
/// function of its operands. (For IEEE types this holds up to the payload
/// bits of a NaN result, which are not guaranteed to agree across
/// platforms.)
pub trait Float: Copy + Sized {
    spec fn zero_spec() -> Self;

    spec fn one_spec() -> Self;

    spec fn half_spec() -> Self;

    spec fn from_i32_spec(v: i32) -> Self;

    spec fn from_usize_spec(v: usize) -> Self;

    /// The value of the `f32` whose bit pattern is `bits`.
    spec fn from_f32_bits_spec(bits: u32) -> Self;

    spec fn plus_spec(self, o: Self) -> Self;

    spec fn minus_spec(self, o: Self) -> Self;

    spec fn times_spec(self, o: Self) -> Self;

    spec fn over_spec(self, o: Self) -> Self;

    spec fn neg_spec(self) -> Self;

    spec fn abs_spec(self) -> Self;

    spec fn sqrt_spec(self) -> Self;

    spec fn powf_spec(self, e: Self) -> Self;

    spec fn cos_spec(self) -> Self;

    spec fn min_spec(self, o: Self) -> Self;

    spec fn is_finite_spec(self) -> bool;

    /// `self < o`; false when either is NaN.
    spec fn lt_spec(self, o: Self) -> bool;

    /// `self <= o`; false when either is NaN.
    spec fn le_spec(self, o: Self) -> bool;

    fn zero() -> (r: Self)
        ensures
            r == Self::zero_spec(),
    ;

    fn one() -> (r: Self)
        ensures
            r == Self::one_spec(),
    ;

    fn half() -> (r: Self)
        ensures
            r == Self::half_spec(),
    ;

    fn from_i32(v: i32) -> (r: Self)
        ensures
            r == Self::from_i32_spec(v),
    ;

    fn from_usize(v: usize) -> (r: Self)
        ensures
            r == Self::from_usize_spec(v),
    ;

    fn from_f32_bits(bits: u32) -> (r: Self)
        ensures
            r == Self::from_f32_bits_spec(bits),
    ;

    fn plus(self, o: Self) -> (r: Self)
        ensures
            r == self.plus_spec(o),
    ;

    fn minus(self, o: Self) -> (r: Self)
        ensures
            r == self.minus_spec(o),
    ;

    fn times(self, o: Self) -> (r: Self)
        ensures
            r == self.times_spec(o),
    ;

    fn over(self, o: Self) -> (r: Self)
        ensures
            r == self.over_spec(o),
    ;

    fn neg(self) -> (r: Self)
        ensures
            r == self.neg_spec(),
    ;

    fn abs(self) -> (r: Self)
        ensures
            r == self.abs_spec(),
    ;

    fn sqrt(self) -> (r: Self)
        ensures
            r == self.sqrt_spec(),
    ;

    fn powf(self, e: Self) -> (r: Self)
        ensures
            r == self.powf_spec(e),
    ;

    fn cos(self) -> (r: Self)
        ensures
            r == self.cos_spec(),
    ;

    fn min(self, o: Self) -> (r: Self)
        ensures
            r == self.min_spec(o),
    ;

    fn is_finite(self) -> (r: bool)
        ensures
            r == self.is_finite_spec(),
    ;

    fn lt(self, o: Self) -> (r: bool)
        ensures
            r == self.lt_spec(o),
    ;

    fn le(self, o: Self) -> (r: bool)
        ensures
            r == self.le_spec(o),
    ;
}

} // verus!
