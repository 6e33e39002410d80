//! Exact rational numbers held in lowest terms.
use vstd::prelude::*;

verus! {

/// `a` and `b` share no divisor greater than one.
pub open spec fn coprime(a: int, b: int) -> bool {
    forall|k: int| #![trigger a % k, b % k] k > 1 ==> !(a % k == 0 && b % k == 0)
}

pub open spec fn abs(n: int) -> int {
    if n < 0 { -n } else { n }
}

/// `p` is `n / d` in lowest terms with a positive denominator (and so no
/// larger than `n` and `d`).
pub open spec fn is_lowest_terms(p: (int, int), n: int, d: int) -> bool {
    p.1 > 0 && p.0 * d == n * p.1 && coprime(p.0, p.1) && abs(p.0) <= abs(n) && p.1 <= abs(d)
}

/// The fraction `n / d` in lowest terms with a positive denominator.
pub open spec fn lowest_terms(n: int, d: int) -> (int, int) {
    choose|p: (int, int)| is_lowest_terms(p, n, d)
}

proof fn lemma_lowest_terms_exists_pos(n: int, d: int)
    requires
        d > 0,
    ensures
        exists|p: (int, int)| is_lowest_terms(p, n, d),
    decreases d,
{
    if coprime(n, d) {
        assert(is_lowest_terms((n, d), n, d));
    } else {
        let k = choose|k: int| #![trigger n % k, d % k] k > 1 && n % k == 0 && d % k == 0;
        let n2 = n / k;
        let d2 = d / k;
        assert(n == k * n2 && d == k * d2) by {
            vstd::arithmetic::div_mod::lemma_fundamental_div_mod(n, k);
            vstd::arithmetic::div_mod::lemma_fundamental_div_mod(d, k);
        }
        assert(0 < d2 < d) by (nonlinear_arith)
            requires d == k * d2, d > 0, k > 1;
        assert(abs(n2) <= abs(n)) by (nonlinear_arith)
            requires n == k * n2, k > 1;
        lemma_lowest_terms_exists_pos(n2, d2);
        let p = choose|p: (int, int)| is_lowest_terms(p, n2, d2);
        assert(p.0 * d == n * p.1) by (nonlinear_arith)
            requires p.0 * d2 == n2 * p.1, n == k * n2, d == k * d2;
        assert(is_lowest_terms(p, n, d));
    }
}

/// Every fraction with a nonzero denominator has a lowest-terms form.
pub proof fn lemma_lowest_terms_exists(n: int, d: int)
    requires
        d != 0,
    ensures
        is_lowest_terms(lowest_terms(n, d), n, d),
{
    if d > 0 {
        lemma_lowest_terms_exists_pos(n, d);
    } else {
        let nn = -n;
        let dd = -d;
        lemma_lowest_terms_exists_pos(nn, dd);
        let p = choose|p: (int, int)| is_lowest_terms(p, nn, dd);
        assert(p.0 * d == n * p.1) by (nonlinear_arith)
            requires p.0 * (-d) == (-n) * p.1;
        assert(is_lowest_terms(p, n, d));
    }
}

/// A fraction whose parts are below 2^62 in magnitude always has a result.
pub proof fn lemma_from_parts_fits(n: int, d: int)
    requires
        d != 0,
        abs(n) < 0x4000_0000_0000_0000,
        abs(d) < 0x4000_0000_0000_0000,
    ensures
        spec_from_parts(n, d) is Some,
        spec_from_parts(n, d).unwrap().wf(),
{
    lemma_lowest_terms_exists(n, d);
}

/// Relies on num_rational's `Ratio::new`, which divides both parts by their
/// greatest common divisor and then makes the denominator positive.
#[verifier::external_body]
fn reduce_fraction(n: i128, d: i128) -> (r: (i128, i128))
    requires
        d != 0,
        n > i128::MIN,
        d > i128::MIN,
    ensures
        (r.0 as int, r.1 as int) == lowest_terms(n as int, d as int),
        r.1 > 0,
        r.0 * d == n * r.1,
        coprime(r.0 as int, r.1 as int),
        -n <= r.0 <= n || n <= r.0 <= -n,
        r.1 <= d || r.1 <= -d,
{
    num_rational::Ratio::<i128>::new(n, d).into_raw()
}

/// An exact fraction `num / den`, always kept in lowest terms.
#[derive(Clone, Copy, Debug, PartialEq, Eq, Structural)]
pub struct Rational {
    pub num: i64,
    pub den: i64,
}

/// The parts of a fraction fit the representation.
pub open spec fn fits(p: (int, int)) -> bool {
    i64::MIN < p.0 <= i64::MAX && 0 < p.1 <= i64::MAX
}

/// The rational `n / d` in lowest terms, when its parts fit in `i64`.
pub open spec fn spec_from_parts(n: int, d: int) -> Option<Rational> {
    let p = lowest_terms(n, d);
    if d != 0 && fits(p) {
        Some(Rational { num: p.0 as i64, den: p.1 as i64 })
    } else {
        None
    }
}

pub open spec fn spec_add(a: Rational, b: Rational) -> Option<Rational> {
    spec_from_parts(a.num * b.den + b.num * a.den, a.den * b.den)
}

pub open spec fn spec_sub(a: Rational, b: Rational) -> Option<Rational> {
    spec_from_parts(a.num * b.den - b.num * a.den, a.den * b.den)
}

pub open spec fn spec_mul(a: Rational, b: Rational) -> Option<Rational> {
    spec_from_parts(a.num * b.num, a.den * b.den)
}

pub open spec fn spec_div(a: Rational, b: Rational) -> Option<Rational> {
    spec_from_parts(a.num * b.den, a.den * b.num)
}

impl Rational {
    /// Lowest terms, a positive denominator, and a numerator whose negation fits.
    pub open spec fn wf(self) -> bool {
        fits((self.num as int, self.den as int)) && coprime(self.num as int, self.den as int)
    }

    /// Builds `n / d` in lowest terms; `None` when `d` is zero or the reduced
    /// parts do not fit.
    pub fn from_parts(n: i128, d: i128) -> (r: Option<Rational>)
        requires
            n > i128::MIN,
            d > i128::MIN,
        ensures
            r == spec_from_parts(n as int, d as int),
            r matches Some(q) ==> q.wf(),
    {
        if d == 0 {
            return None;
        }
        let p = reduce_fraction(n, d);
        if p.0 > i64::MIN as i128 && p.0 <= i64::MAX as i128 && p.1 <= i64::MAX as i128 {
            Some(Rational { num: p.0 as i64, den: p.1 as i64 })
        } else {
            None
        }
    }

    /// The integer `n` as a rational.
    pub fn from_int(n: i64) -> (r: Rational)
        requires
            n > i64::MIN,
        ensures
            r.wf(),
            r.num == n,
            r.den == 1,
    {
        let p = reduce_fraction(n as i128, 1);
        assert(p.1 == 1);
        assert(p.0 == n) by (nonlinear_arith)
            requires p.0 * 1 == (n as i128) * p.1, p.1 == 1;
        Rational { num: p.0 as i64, den: 1 }
    }

    pub fn add(&self, b: &Rational) -> (r: Option<Rational>)
        requires
            self.wf(),
            b.wf(),
        ensures
            r == spec_add(*self, *b),
            r matches Some(q) ==> q.wf(),
    {
        let (n, d) = Self::cross(self, b);
        Self::from_parts(n.0 + n.1, d)
    }

    pub fn sub(&self, b: &Rational) -> (r: Option<Rational>)
        requires
            self.wf(),
            b.wf(),
        ensures
            r == spec_sub(*self, *b),
            r matches Some(q) ==> q.wf(),
    {
        let (n, d) = Self::cross(self, b);
        Self::from_parts(n.0 - n.1, d)
    }

    pub fn mul(&self, b: &Rational) -> (r: Option<Rational>)
        requires
            self.wf(),
            b.wf(),
        ensures
            r == spec_mul(*self, *b),
            r matches Some(q) ==> q.wf(),
    {
        let n = Self::product(self.num, b.num);
        let d = Self::product(self.den, b.den);
        Self::from_parts(n, d)
    }

    pub fn div(&self, b: &Rational) -> (r: Option<Rational>)
        requires
            self.wf(),
            b.wf(),
        ensures
            r == spec_div(*self, *b),
            r matches Some(q) ==> q.wf(),
    {
        let n = Self::product(self.num, b.den);
        let d = Self::product(self.den, b.num);
        Self::from_parts(n, d)
    }

    pub fn neg(&self) -> (r: Rational)
        requires
            self.wf(),
        ensures
            r.wf(),
            Some(r) == spec_from_parts(-self.num, self.den as int),
    {
        let p = reduce_fraction(-(self.num as i128), self.den as i128);
        Rational { num: p.0 as i64, den: p.1 as i64 }
    }

    fn product(a: i64, b: i64) -> (r: i128)
        requires
            a > i64::MIN,
            b > i64::MIN,
        ensures
            r == a * b,
            -0x3fff_ffff_ffff_ffff_0000_0000_0000_0001 <= r <= 0x3fff_ffff_ffff_ffff_0000_0000_0000_0001,
    {
        proof {
            let x = a as int;
            let y = b as int;
            assert(-0x7fff_ffff_ffff_ffff <= x <= 0x7fff_ffff_ffff_ffff);
            assert(-0x7fff_ffff_ffff_ffff <= y <= 0x7fff_ffff_ffff_ffff);
            assert(-0x3fff_ffff_ffff_ffff_0000_0000_0000_0001 <= x * y <= 0x3fff_ffff_ffff_ffff_0000_0000_0000_0001)
                by (nonlinear_arith)
                requires
                    -0x7fff_ffff_ffff_ffff <= x <= 0x7fff_ffff_ffff_ffff,
                    -0x7fff_ffff_ffff_ffff <= y <= 0x7fff_ffff_ffff_ffff,
            ;
        }
        (a as i128) * (b as i128)
    }

    /// The two cross products `a.num * b.den`, `b.num * a.den` and the common
    /// denominator `a.den * b.den`.
    fn cross(a: &Rational, b: &Rational) -> (r: ((i128, i128), i128))
        requires
            a.wf(),
            b.wf(),
        ensures
            r.0.0 == a.num * b.den,
            r.0.1 == b.num * a.den,
            r.1 == a.den * b.den,
            r.1 > 0,
            -0x3fff_ffff_ffff_ffff_0000_0000_0000_0001 <= r.0.0 <= 0x3fff_ffff_ffff_ffff_0000_0000_0000_0001,
            -0x3fff_ffff_ffff_ffff_0000_0000_0000_0001 <= r.0.1 <= 0x3fff_ffff_ffff_ffff_0000_0000_0000_0001,
    {
        let d = Self::product(a.den, b.den);
        proof {
            let x = a.den as int;
            let y = b.den as int;
            assert(x * y > 0) by (nonlinear_arith) requires x > 0, y > 0;
        }
        ((Self::product(a.num, b.den), Self::product(b.num, a.den)), d)
    }
}

} // verus!
