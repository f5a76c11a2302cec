use vstd::prelude::*;

use crate::fr_order;
use crate::pow_mod;
use crate::scalar::FrVal;
use crate::scalar::Scalar;
use ark_ff::Field;
use ark_poly::univariate::DensePolynomial;
use ark_poly::Radix2EvaluationDomain;
use ark_poly::DenseUVPolynomial;
use ark_poly::EvaluationDomain;
use ark_poly::Polynomial;

verus! {

use vstd::arithmetic::div_mod::lemma_mod_bound;
use vstd::arithmetic::div_mod::lemma_small_mod;

/// Opaque holders for a dense polynomial and an evaluation domain of the
/// outside crate; Verus sees nothing inside them. The domain holder relies on
/// `ark_poly::Radix2EvaluationDomain` being `Copy`.
#[verifier::external_body]
pub struct PolyVal(pub(crate) DensePolynomial<ark_bls12_381::Fr>);

#[verifier::external_body]
pub struct DomainVal(pub(crate) Radix2EvaluationDomain<ark_bls12_381::Fr>);

impl Clone for DomainVal {
    #[verifier::external_body]
    fn clone(&self) -> (r: Self)
        ensures
            r == *self,
    {
        DomainVal(self.0)
    }
}

impl Copy for DomainVal {

}

/// The generator that the evaluation domain of size `n` is built with: a fixed
/// primitive `n`-th root of unity of the scalar field, a function of `n` alone.
pub uninterp spec fn domain_gen_of(n: nat) -> int;

/// The models of a vector of scalars.
pub open spec fn vals(s: Seq<Scalar>) -> Seq<int> {
    s.map(|i: int, x: Scalar| x@)
}

/// All entries are canonical field representatives.
pub open spec fn coeffs_wf(s: Seq<int>) -> bool {
    forall|i: int| 0 <= i < s.len() ==> 0 <= #[trigger] s[i] < fr_order()
}

/// No trailing zero coefficients: the representation of a polynomial is unique.
pub open spec fn normalized(s: Seq<int>) -> bool {
    s.len() == 0 || s[s.len() - 1] != 0
}

/// Drop trailing zero coefficients.
pub open spec fn trim(s: Seq<int>) -> Seq<int>
    decreases s.len(),
{
    if s.len() == 0 {
        s
    } else if s[s.len() - 1] == 0 {
        trim(s.drop_last())
    } else {
        s
    }
}

/// `(sum of c[i] * x^i over i < k) % fr_order()`.
pub open spec fn psum(c: Seq<int>, x: int, k: nat) -> int
    decreases k,
{
    if k == 0 {
        0
    } else {
        (psum(c, x, (k - 1) as nat) + c[k - 1] * pow_mod(x, (k - 1) as nat)) % fr_order()
    }
}

/// The value of the polynomial with coefficient sequence `c` at `x`, reduced
/// modulo the field order.
pub open spec fn poly_eval(c: Seq<int>, x: int) -> int {
    psum(c, x, c.len())
}

pub proof fn lemma_psum_bound(c: Seq<int>, x: int, k: nat)
    ensures
        0 <= psum(c, x, k) < fr_order(),
{
    if k == 0 {
    } else {
        lemma_mod_bound(
            psum(c, x, (k - 1) as nat) + c[k - 1] * pow_mod(x, (k - 1) as nat),
            fr_order(),
        );
    }
}

/// Partial sums read only the first `k` coefficients.
pub proof fn lemma_psum_prefix(a: Seq<int>, b: Seq<int>, x: int, k: nat)
    requires
        k <= a.len(),
        k <= b.len(),
        forall|i: int| 0 <= i < k ==> a[i] == b[i],
    ensures
        psum(a, x, k) == psum(b, x, k),
    decreases k,
{
    if k > 0 {
        lemma_psum_prefix(a, b, x, (k - 1) as nat);
    }
}

/// Trailing zeros do not change a polynomial's values.
pub proof fn lemma_poly_eval_trim(c: Seq<int>, x: int)
    ensures
        poly_eval(trim(c), x) == poly_eval(c, x),
    decreases c.len(),
{
    if c.len() == 0 {
    } else if c[c.len() - 1] == 0 {
        let d = c.drop_last();
        lemma_psum_prefix(c, d, x, d.len());
        lemma_psum_bound(c, x, (c.len() - 1) as nat);
        lemma_small_mod(psum(c, x, (c.len() - 1) as nat) as nat, fr_order() as nat);
        lemma_poly_eval_trim(d, x);
    }
}

pub proof fn lemma_trim_len(s: Seq<int>)
    ensures
        trim(s).len() <= s.len(),
        normalized(trim(s)),
        coeffs_wf(s) ==> coeffs_wf(trim(s)),
    decreases s.len(),
{
    if s.len() > 0 && s[s.len() - 1] == 0 {
        lemma_trim_len(s.drop_last());
    }
}

/// A dense univariate polynomial over the scalar field, modelled by the
/// sequence of its coefficients, constant term first, with no trailing zeros.
pub struct Poly {
    pub(crate) inner: PolyVal,
    pub(crate) coef: Ghost<Seq<int>>,
}

impl View for Poly {
    type V = Seq<int>;

    closed spec fn view(&self) -> Seq<int> {
        self.coef@
    }
}

impl Poly {
    pub open spec fn wf(&self) -> bool {
        normalized(self@) && coeffs_wf(self@)
    }

    /// Relies on `ark_poly::DenseUVPolynomial::from_coefficients_slice`, which
    /// keeps the coefficients as given, dropping trailing zeros.
    #[verifier::external_body]
    pub fn from_coeffs(v: &Vec<Scalar>) -> (r: Poly)
        requires
            forall|i: int| 0 <= i < v@.len() ==> (#[trigger] v@[i]).wf(),
        ensures
            r@ == trim(vals(v@)),
            r.wf(),
    {
        let coeffs: Vec<ark_bls12_381::Fr> = v.iter().map(|s| s.inner.0).collect();
        Poly {
            inner: PolyVal(DensePolynomial::from_coefficients_vec(coeffs)),
            coef: Ghost(arbitrary()),
        }
    }

    /// Relies on addition of `ark_poly::univariate::DensePolynomial`:
    /// coefficient-wise addition, so values add.
    #[verifier::external_body]
    pub fn add_poly(&self, o: &Poly) -> (r: Poly)
        requires
            self.wf(),
            o.wf(),
        ensures
            r.wf(),
            r@.len() <= self@.len() || r@.len() <= o@.len(),
            forall|x: int|
                0 <= x < fr_order() ==> #[trigger] poly_eval(r@, x) == (poly_eval(self@, x)
                    + poly_eval(o@, x)) % fr_order(),
    {
        Poly { inner: PolyVal(&self.inner.0 + &o.inner.0), coef: Ghost(arbitrary()) }
    }

    /// Relies on subtraction of `ark_poly::univariate::DensePolynomial`:
    /// coefficient-wise subtraction, so values subtract.
    #[verifier::external_body]
    pub fn sub_poly(&self, o: &Poly) -> (r: Poly)
        requires
            self.wf(),
            o.wf(),
        ensures
            r.wf(),
            r@.len() <= self@.len() || r@.len() <= o@.len(),
            forall|x: int|
                0 <= x < fr_order() ==> #[trigger] poly_eval(r@, x) == (poly_eval(self@, x)
                    - poly_eval(o@, x)) % fr_order(),
    {
        Poly { inner: PolyVal(&self.inner.0 - &o.inner.0), coef: Ghost(arbitrary()) }
    }

    /// Relies on multiplication of `ark_poly::univariate::DensePolynomial`
    /// (polynomial product), so values multiply and degrees add. The product is
    /// computed by FFT over an evaluation domain of the scalar field, whose
    /// two-adicity of 32 and small subgroup of order 3 host sizes up to
    /// `3 * 2^32`; the bound on the combined length keeps the domain
    /// constructible.
    #[verifier::external_body]
    pub fn mul_poly(&self, o: &Poly) -> (r: Poly)
        requires
            self.wf(),
            o.wf(),
            self@.len() + o@.len() <= 0x3_0000_0000,
        ensures
            r.wf(),
            r@.len() == 0 || r@.len() + 1 == self@.len() + o@.len(),
            forall|x: int|
                0 <= x < fr_order() ==> #[trigger] poly_eval(r@, x) == (poly_eval(self@, x)
                    * poly_eval(o@, x)) % fr_order(),
    {
        Poly { inner: PolyVal(&self.inner.0 * &o.inner.0), coef: Ghost(arbitrary()) }
    }

    /// Relies on multiplication of `ark_poly::univariate::DensePolynomial` by a
    /// field element: every coefficient, hence every value, is scaled.
    #[verifier::external_body]
    pub fn scale(&self, s: &Scalar) -> (r: Poly)
        requires
            self.wf(),
            s.wf(),
        ensures
            r.wf(),
            r@.len() <= self@.len(),
            forall|x: int|
                0 <= x < fr_order() ==> #[trigger] poly_eval(r@, x) == (s@ * poly_eval(self@, x))
                    % fr_order(),
    {
        Poly { inner: PolyVal(&self.inner.0 * s.inner.0), coef: Ghost(arbitrary()) }
    }

    /// Relies on `ark_poly::Polynomial::evaluate`.
    #[verifier::external_body]
    pub fn eval_at(&self, x: &Scalar) -> (r: Scalar)
        requires
            self.wf(),
            x.wf(),
        ensures
            r@ == poly_eval(self@, x@),
            r.wf(),
    {
        Scalar { inner: FrVal(self.inner.0.evaluate(&x.inner.0)), val: Ghost(arbitrary()) }
    }

    /// Relies on `ark_poly::univariate::DenseOrSparsePolynomial::divide_with_q_and_r`:
    /// Euclidean division, `self = q * d + rem` with `deg rem < deg d`.
    #[verifier::external_body]
    pub fn divide(&self, d: &Poly) -> (r: (Poly, Poly))
        requires
            self.wf(),
            d.wf(),
            d@.len() >= 1,
        ensures
            r.0.wf(),
            r.1.wf(),
            r.1@.len() < d@.len(),
            r.0@.len() == 0 || r.0@.len() + d@.len() == self@.len() + 1,
            forall|x: int|
                0 <= x < fr_order() ==> #[trigger] poly_eval(self@, x) == (poly_eval(r.0@, x)
                    * poly_eval(d@, x) + poly_eval(r.1@, x)) % fr_order(),
    {
        let a = ark_poly::univariate::DenseOrSparsePolynomial::from(&self.inner.0);
        let b = ark_poly::univariate::DenseOrSparsePolynomial::from(&d.inner.0);
        let (q, rem) = a.divide_with_q_and_r(&b).expect("divisor is not zero");
        (Poly { inner: PolyVal(q), coef: Ghost(arbitrary()) }, Poly { inner: PolyVal(rem), coef: Ghost(arbitrary()) })
    }

    /// Relies on the coefficient vector of
    /// `ark_poly::univariate::DensePolynomial`, constant term first.
    #[verifier::external_body]
    pub fn coeffs(&self) -> (r: Vec<Scalar>)
        requires
            self.wf(),
        ensures
            vals(r@) == self@,
            r@.len() == self@.len(),
            forall|i: int| 0 <= i < r@.len() ==> (#[trigger] r@[i]).wf() && r@[i]@ == self@[i],
    {
        self.inner.0.coeffs.iter().map(|c| Scalar { inner: FrVal(*c), val: Ghost(arbitrary()) }).collect()
    }

    /// Relies on `Vec::len` of the coefficient vector.
    #[verifier::external_body]
    pub fn num_coeffs(&self) -> (r: usize)
        ensures
            r as nat == self@.len(),
    {
        self.inner.0.coeffs.len()
    }
}

/// Whether `n` is a power of two.
pub open spec fn pow_of_two(n: nat) -> bool
    decreases n,
{
    if n == 0 {
        false
    } else if n == 1 {
        true
    } else {
        n % 2 == 0 && pow_of_two(n / 2)
    }
}

/// A multiplicative evaluation domain: the subgroup of the scalar field of
/// power-of-two size `n()` generated by the primitive root of unity `w()`.
#[derive(Clone, Copy)]
pub struct Domain {
    pub(crate) inner: DomainVal,
    pub(crate) size_m: Ghost<nat>,
    pub(crate) gen_m: Ghost<int>,
}

impl Domain {
    pub closed spec fn n(&self) -> nat {
        self.size_m@
    }

    pub closed spec fn w(&self) -> int {
        self.gen_m@
    }

    pub open spec fn wf(&self) -> bool {
        &&& pow_of_two(self.n())
        &&& 1 <= self.n() <= 0x1_0000_0000
        &&& 0 <= self.w() < fr_order()
        &&& self.w() == domain_gen_of(self.n())
        &&& pow_mod(self.w(), self.n()) == 1
        &&& forall|i: nat| 0 < i < self.n() ==> #[trigger] pow_mod(self.w(), i) != 1
    }

    /// Relies on `ark_poly::Radix2EvaluationDomain::new`: the requested size is
    /// rounded up to the next power of two; construction succeeds exactly when
    /// that size divides the two-adic part of the field order (which has
    /// two-adicity 32), and the generator is the fixed primitive root of unity
    /// of that size.
    #[verifier::external_body]
    pub fn new(n: usize) -> (r: Option<Domain>)
        requires
            n >= 1,
        ensures
            r is Some <==> n <= 0x1_0000_0000,
            r matches Some(d) ==> d.wf() && n <= d.n() && d.n() < 2 * n && d.w() == domain_gen_of(
                d.n(),
            ),
    {
        match ark_poly::Radix2EvaluationDomain::new(n) {
            Some(inner) => Some(Domain { inner: DomainVal(inner), size_m: Ghost(arbitrary()), gen_m: Ghost(arbitrary()) }),
            None => None,
        }
    }

    /// Relies on `ark_poly::EvaluationDomain::size`.
    #[verifier::external_body]
    pub fn size(&self) -> (r: usize)
        ensures
            r as nat == self.n(),
    {
        self.inner.0.size()
    }

    /// Relies on `ark_poly::EvaluationDomain::group_gen`.
    #[verifier::external_body]
    pub fn gen(&self) -> (r: Scalar)
        requires
            self.wf(),
        ensures
            r@ == self.w(),
            r.wf(),
    {
        Scalar { inner: FrVal(self.inner.0.group_gen()), val: Ghost(arbitrary()) }
    }

    /// Relies on `ark_poly::EvaluationDomain::ifft`: the interpolation of the
    /// given values over the domain, a polynomial of degree below the domain
    /// size whose value at the `i`-th domain element is the `i`-th input.
    #[verifier::external_body]
    pub fn interpolate(&self, evals: &Vec<Scalar>) -> (r: Poly)
        requires
            self.wf(),
            evals@.len() == self.n(),
            forall|i: int| 0 <= i < evals@.len() ==> (#[trigger] evals@[i]).wf(),
        ensures
            r.wf(),
            r@.len() <= self.n(),
            forall|i: int|
                0 <= i < self.n() ==> #[trigger] poly_eval(r@, pow_mod(self.w(), i as nat))
                    == evals@[i]@,
    {
        let points: Vec<ark_bls12_381::Fr> = evals.iter().map(|s| s.inner.0).collect();
        let coeffs = self.inner.0.ifft(&points);
        Poly {
            inner: PolyVal(DensePolynomial::from_coefficients_vec(coeffs)),
            coef: Ghost(arbitrary()),
        }
    }
}

} // verus!
