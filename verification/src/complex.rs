//! A partial implementation of complex numbers.
//!
//! Only the operations needed for recreating the Mandelbrot set are
//! implemented, which essentially boils down to addition, subtraction,
//! multiplication, and (integer) exponentiation.
//!
//! All arithmetic is deliberately *elementwise*: `mul` multiplies the two
//! real parts and the two imaginary parts independently rather than
//! cross-multiplying as true complex multiplication would, and `powi`
//! squares each component `n` times rather than raising the value to the
//! n-th power. Callers rely on these literal semantics.

use vstd::prelude::*;

verus! {

/// An element type that supports addition.
///
/// `add_in_range` says when the sum of two values is representable;
/// `sum_with` is the mathematical sum, and `add_elem` computes it.
pub trait ElementAdd: Copy + Sized {
    spec fn add_in_range(self, rhs: Self) -> bool;

    spec fn sum_with(self, rhs: Self) -> Self;

    fn add_elem(self, rhs: Self) -> (r: Self)
        requires
            self.add_in_range(rhs),
        ensures
            r == self.sum_with(rhs),
    ;
}

/// An element type that supports subtraction.
pub trait ElementSub: Copy + Sized {
    spec fn sub_in_range(self, rhs: Self) -> bool;

    spec fn diff_with(self, rhs: Self) -> Self;

    fn sub_elem(self, rhs: Self) -> (r: Self)
        requires
            self.sub_in_range(rhs),
        ensures
            r == self.diff_with(rhs),
    ;
}

/// An element type that supports multiplication.
pub trait ElementMul: Copy + Sized {
    spec fn mul_in_range(self, rhs: Self) -> bool;

    spec fn prod_with(self, rhs: Self) -> Self;

    fn mul_elem(self, rhs: Self) -> (r: Self)
        requires
            self.mul_in_range(rhs),
        ensures
            r == self.prod_with(rhs),
    ;
}

impl ElementAdd for i32 {
    open spec fn add_in_range(self, rhs: Self) -> bool {
        i32::MIN <= self + rhs <= i32::MAX
    }

    open spec fn sum_with(self, rhs: Self) -> Self {
        (self + rhs) as i32
    }

    fn add_elem(self, rhs: Self) -> Self {
        self + rhs
    }
}

impl ElementSub for i32 {
    open spec fn sub_in_range(self, rhs: Self) -> bool {
        i32::MIN <= self - rhs <= i32::MAX
    }

    open spec fn diff_with(self, rhs: Self) -> Self {
        (self - rhs) as i32
    }

    fn sub_elem(self, rhs: Self) -> Self {
        self - rhs
    }
}

impl ElementMul for i32 {
    open spec fn mul_in_range(self, rhs: Self) -> bool {
        i32::MIN <= self * rhs <= i32::MAX
    }

    open spec fn prod_with(self, rhs: Self) -> Self {
        (self * rhs) as i32
    }

    fn mul_elem(self, rhs: Self) -> Self {
        self * rhs
    }
}

impl ElementAdd for i64 {
    open spec fn add_in_range(self, rhs: Self) -> bool {
        i64::MIN <= self + rhs <= i64::MAX
    }

    open spec fn sum_with(self, rhs: Self) -> Self {
        (self + rhs) as i64
    }

    fn add_elem(self, rhs: Self) -> Self {
        self + rhs
    }
}

impl ElementSub for i64 {
    open spec fn sub_in_range(self, rhs: Self) -> bool {
        i64::MIN <= self - rhs <= i64::MAX
    }

    open spec fn diff_with(self, rhs: Self) -> Self {
        (self - rhs) as i64
    }

    fn sub_elem(self, rhs: Self) -> Self {
        self - rhs
    }
}

impl ElementMul for i64 {
    open spec fn mul_in_range(self, rhs: Self) -> bool {
        i64::MIN <= self * rhs <= i64::MAX
    }

    open spec fn prod_with(self, rhs: Self) -> Self {
        (self * rhs) as i64
    }

    fn mul_elem(self, rhs: Self) -> Self {
        self * rhs
    }
}

/// A two-component numeric value standing in for a complex number.
///
/// Every operation produces a new instance; a value is never mutated in
/// place, and equality is structural (component-wise).
#[derive(Clone, Copy, PartialEq, Eq, Debug)]
pub struct Complex<T> {
    pub real: T,
    pub imaginary: T,
}

impl<T> Complex<T> {
    /// Build a pair from two same-typed numbers.
    pub fn new(re: T, im: T) -> (r: Self)
        ensures
            r.real == re,
            r.imaginary == im,
    {
        Complex { real: re, imaginary: im }
    }
}

impl<T: ElementAdd> Complex<T> {
    /// The pair of elementwise sums, as a mathematical value.
    pub open spec fn spec_add(self, rhs: Self) -> Self {
        Complex { real: self.real.sum_with(rhs.real), imaginary: self.imaginary.sum_with(rhs.imaginary) }
    }

    /// Elementwise addition: each component of the result is the sum of the
    /// corresponding components of the operands.
    pub fn add(self, rhs: Self) -> (r: Self)
        requires
            self.real.add_in_range(rhs.real),
            self.imaginary.add_in_range(rhs.imaginary),
        ensures
            r == self.spec_add(rhs),
    {
        Complex { real: self.real.add_elem(rhs.real), imaginary: self.imaginary.add_elem(rhs.imaginary) }
    }
}

impl<T: ElementSub> Complex<T> {
    /// The pair of elementwise differences, as a mathematical value.
    pub open spec fn spec_sub(self, rhs: Self) -> Self {
        Complex { real: self.real.diff_with(rhs.real), imaginary: self.imaginary.diff_with(rhs.imaginary) }
    }

    /// Elementwise subtraction: each component of the result is the
    /// difference of the corresponding components of the operands.
    pub fn sub(self, rhs: Self) -> (r: Self)
        requires
            self.real.sub_in_range(rhs.real),
            self.imaginary.sub_in_range(rhs.imaginary),
        ensures
            r == self.spec_sub(rhs),
    {
        Complex { real: self.real.sub_elem(rhs.real), imaginary: self.imaginary.sub_elem(rhs.imaginary) }
    }
}

impl<T: ElementMul> Complex<T> {
    /// The pair of elementwise products, as a mathematical value.
    ///
    /// This is *not* true complex multiplication (which would cross-multiply
    /// and combine the components); both components are multiplied
    /// independently, on purpose.
    pub open spec fn spec_mul(self, rhs: Self) -> Self {
        Complex { real: self.real.prod_with(rhs.real), imaginary: self.imaginary.prod_with(rhs.imaginary) }
    }

    /// The pair with each component squared independently.
    pub open spec fn spec_square(self) -> Self {
        self.spec_mul(self)
    }

    /// The result of squaring each component of `self` independently,
    /// `n` times in a row.
    pub open spec fn spec_powi(self, n: int) -> Self
        decreases n,
    {
        if n <= 0 {
            self
        } else {
            self.spec_powi(n - 1).spec_square()
        }
    }

    /// Whether every multiplication performed by `n` repeated squarings of
    /// `self` stays representable in the element type.
    pub open spec fn powi_in_range(self, n: int) -> bool
        decreases n,
    {
        if n <= 0 {
            true
        } else {
            let prev = self.spec_powi(n - 1);
            &&& self.powi_in_range(n - 1)
            &&& prev.real.mul_in_range(prev.real)
            &&& prev.imaginary.mul_in_range(prev.imaginary)
        }
    }

    /// `powi_in_range` is monotonic: if `n` squarings stay representable,
    /// so does any shorter run.
    proof fn lemma_powi_in_range_mono(self, m: int, n: int)
        requires
            m <= n,
            self.powi_in_range(n),
        ensures
            self.powi_in_range(m),
        decreases n,
    {
        if m < n && n > 0 {
            self.lemma_powi_in_range_mono(m, n - 1);
        }
    }

    /// Elementwise multiplication: each component of the result is the
    /// product of the corresponding components of the operands. This is not
    /// true complex multiplication; the elementwise semantics is deliberate.
    pub fn mul(self, rhs: Self) -> (r: Self)
        requires
            self.real.mul_in_range(rhs.real),
            self.imaginary.mul_in_range(rhs.imaginary),
        ensures
            r == self.spec_mul(rhs),
    {
        Complex { real: self.real.mul_elem(rhs.real), imaginary: self.imaginary.mul_elem(rhs.imaginary) }
    }

    /// Square each component independently, `n` times.
    ///
    /// For `n <= 0` the loop runs zero times and the unmodified input is
    /// returned — not a multiplicative identity. `powi(1)` already squares
    /// once, so the semantics is "square `n` times", not "raise to the n-th
    /// power".
    pub fn powi(self, n: i32) -> (r: Self)
        requires
            self.powi_in_range(n as int),
        ensures
            r == self.spec_powi(n as int),
            n <= 0 ==> r == self,
    {
        let mut re = self.real;
        let mut im = self.imaginary;

        let mut i: i32 = 0;
        while i < n
            invariant
                0 <= i,
                i <= n || i == 0,
                self.powi_in_range(n as int),
                (Complex { real: re, imaginary: im }) == self.spec_powi(i as int),
            decreases n - i,
        {
            proof {
                self.lemma_powi_in_range_mono(i + 1, n as int);
            }
            re = re.mul_elem(re);
            im = im.mul_elem(im);
            i = i + 1;
        }

        Complex { real: re, imaginary: im }
    }
}

} // verus!
