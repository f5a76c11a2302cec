use vstd::prelude::*;

use crate::fr_order;
use crate::group::pairing;
use crate::group::G1Elem;
use crate::group::G2Elem;
use crate::poly::poly_eval;
use crate::poly::psum;
use crate::poly::trim;
use crate::poly::vals;
use crate::poly::Poly;
use crate::pow_mod;
use crate::scalar::Scalar;
use crate::Error;

verus! {

use vstd::arithmetic::div_mod::lemma_add_mod_noop;
use vstd::arithmetic::div_mod::lemma_add_mod_noop_right;
use vstd::arithmetic::div_mod::lemma_fundamental_div_mod;
use vstd::arithmetic::div_mod::lemma_mod_bound;
use vstd::arithmetic::div_mod::lemma_small_mod;
use vstd::arithmetic::div_mod::lemma_sub_mod_noop;
use vstd::arithmetic::mul::lemma_mul_is_commutative;
use crate::poly::lemma_poly_eval_trim;
use crate::poly::lemma_psum_bound;

/// The structured reference string: the powers `(g, τg, τ²g, …)` in the first
/// group together with `(h, τh)` in the second, for a trapdoor `τ` that is
/// meant to be forgotten.
pub struct Powers {
    pub(crate) g1: Vec<G1Elem>,
    pub(crate) g2_h: G2Elem,
    pub(crate) g2_tau_h: G2Elem,
    pub(crate) tau_m: Ghost<int>,
}

impl Powers {
    pub closed spec fn tau(&self) -> int {
        self.tau_m@
    }

    pub closed spec fn g1_len(&self) -> nat {
        self.g1@.len()
    }

    pub closed spec fn g1_at(&self, i: int) -> int {
        self.g1@[i]@
    }

    pub closed spec fn h_v(&self) -> int {
        self.g2_h@
    }

    pub closed spec fn tau_h_v(&self) -> int {
        self.g2_tau_h@
    }

    pub open spec fn wf(&self) -> bool {
        &&& 0 <= self.tau() < fr_order()
        &&& self.g1_len() >= 1
        &&& self.h_v() == 1
        &&& self.tau_h_v() == self.tau()
        &&& forall|i: int|
            0 <= i < self.g1_len() ==> #[trigger] self.g1_at(i) == pow_mod(self.tau(), i as nat)
    }

    /// Build a reference string from a known trapdoor: adequate for tests, and
    /// named for the fact that whoever ran it knows `τ`.
    pub fn unsafe_setup(tau: &Scalar, range: usize) -> (r: Powers)
        requires
            tau.wf(),
            range < usize::MAX,
        ensures
            r.wf(),
            r.tau() == tau@,
            r.g1_len() == range + 1,
    {
        let g = G1Elem::generator();
        let mut g1: Vec<G1Elem> = Vec::new();
        let mut cur = Scalar::one();
        let mut i: usize = 0;
        proof {
            lemma_small_mod(tau@ as nat, fr_order() as nat);
        }
        while i <= range
            invariant
                tau.wf(),
                g@ == 1,
                g.wf(),
                cur.wf(),
                0 <= i <= range + 1,
                range < usize::MAX,
                g1@.len() == i,
                cur@ == pow_mod(tau@, i as nat),
                forall|j: int|
                    0 <= j < i ==> (#[trigger] g1@[j])@ == pow_mod(tau@, j as nat) && g1@[j].wf(),
            decreases range + 1 - i,
        {
            proof {
                lemma_small_mod(cur@ as nat, fr_order() as nat);
                lemma_small_mod(tau@ as nat, fr_order() as nat);
                lemma_mul_is_commutative(cur@, tau@);
            }
            g1.push(g.mul_scalar(&cur));
            cur = cur.mul(tau);
            i = i + 1;
        }
        let h = G2Elem::generator();
        let tau_h = h.mul_scalar(tau);
        Powers { g1, g2_h: h, g2_tau_h: tau_h, tau_m: Ghost(tau@) }
    }

    pub fn num_powers(&self) -> (r: usize)
        ensures
            r as nat == self.g1_len(),
    {
        self.g1.len()
    }

    /// Commit to a polynomial: the multi-scalar combination `Σ pᵢ · τⁱg`, whose
    /// discrete logarithm is the value `p(τ)`. Fails exactly when the
    /// polynomial is longer than the reference string.
    pub fn commit_g1(&self, p: &Poly) -> (r: Result<G1Elem, Error>)
        requires
            self.wf(),
            p.wf(),
        ensures
            r is Ok <==> p@.len() <= self.g1_len(),
            r matches Ok(c) ==> c@ == poly_eval(p@, self.tau()) && c.wf(),
            r is Err ==> r == Err::<G1Elem, Error>(Error::DegreeTooLarge),
    {
        let coeffs = p.coeffs();
        if coeffs.len() > self.num_powers() {
            return Err(Error::DegreeTooLarge);
        }
        let mut acc = G1Elem::identity();
        let mut i: usize = 0;
        while i < coeffs.len()
            invariant
                self.wf(),
                p.wf(),
                coeffs@.len() == p@.len(),
                forall|j: int|
                    0 <= j < coeffs@.len() ==> (#[trigger] coeffs@[j]).wf() && coeffs@[j]@
                        == p@[j],
                coeffs@.len() <= self.g1_len(),
                0 <= i <= coeffs@.len(),
                acc.wf(),
                acc@ == psum(p@, self.tau(), i as nat),
            decreases coeffs@.len() - i,
        {
            proof {
                assert(self.g1_at(i as int) == pow_mod(self.tau(), i as nat));
            }
            let term = self.g1[i].mul_scalar(&coeffs[i]);
            proof {
                lemma_mul_is_commutative(pow_mod(self.tau(), i as nat), p@[i as int]);
                lemma_add_mod_noop_right(
                    psum(p@, self.tau(), i as nat),
                    p@[i as int] * pow_mod(self.tau(), i as nat),
                    fr_order(),
                );
                assert(psum(p@, self.tau(), (i + 1) as nat) == (psum(p@, self.tau(), i as nat)
                    + p@[i as int] * pow_mod(self.tau(), i as nat)) % fr_order());
            }
            acc = acc.add(&term);
            i = i + 1;
        }
        Ok(acc)
    }
}

/// The pairing equation that a KZG opening check evaluates, over discrete
/// logarithms: `e(π, τh − u·h) = e(C − v·g, h)`.
pub open spec fn kzg_check(pi: int, c: int, u: int, v: int, tau: int) -> bool {
    (pi * ((tau - u) % fr_order())) % fr_order() == (c - v) % fr_order()
}

/// The KZG commitment engine: witnesses and the pairing check.
pub struct Kzg {}

impl Kzg {
    /// The witness polynomial `(p(X) − p(u)) / (X − u)`; the division is exact
    /// because `u` is a root of the numerator.
    pub fn witness(p: &Poly, u: &Scalar) -> (r: Poly)
        requires
            p.wf(),
            u.wf(),
        ensures
            r.wf(),
            r@.len() == 0 || r@.len() < p@.len(),
            forall|x: int|
                0 <= x < fr_order() ==> #[trigger] poly_eval(p@, x) == (poly_eval(r@, x) * ((x
                    - u@) % fr_order()) + poly_eval(p@, u@)) % fr_order(),
    {
        let v = p.eval_at(u);
        let mut cv: Vec<Scalar> = Vec::new();
        cv.push(v);
        let cpoly = Poly::from_coeffs(&cv);
        let num = p.sub_poly(&cpoly);
        let mut dv: Vec<Scalar> = Vec::new();
        dv.push(Scalar::zero().sub(u));
        dv.push(Scalar::one());
        let d = Poly::from_coeffs(&dv);
        proof {
            assert(vals(cv@) =~= seq![v@]);
            assert(vals(dv@) =~= seq![(0 - u@) % fr_order(), 1int]);
            assert(d@ == vals(dv@));
            crate::poly::lemma_trim_len(seq![v@]);
            lemma_const_eval(v@, u@);
            lemma_linear_eval(u@, u@);
        }
        let (w, rem) = num.divide(&d);
        proof {
            lemma_psum_bound(p@, u@, p@.len());
            // the remainder is the constant zero: evaluate everything at u
            assert(poly_eval(num@, u@) == 0) by {
                lemma_small_mod(0nat, fr_order() as nat);
            }
            assert(poly_eval(d@, u@) == 0);
            assert(poly_eval(rem@, u@) == 0) by {
                assert(poly_eval(num@, u@) == (poly_eval(w@, u@) * poly_eval(d@, u@)
                    + poly_eval(rem@, u@)) % fr_order());
                assert(poly_eval(w@, u@) * 0 == 0) by (nonlinear_arith);
                lemma_psum_bound(rem@, u@, rem@.len());
                lemma_small_mod(poly_eval(rem@, u@) as nat, fr_order() as nat);
            }
            assert forall|x: int| 0 <= x < fr_order() implies poly_eval(rem@, x) == 0 by {
                lemma_rem_const(rem@, u@, x);
            }
            assert forall|x: int| 0 <= x < fr_order() implies #[trigger] poly_eval(p@, x)
                == (poly_eval(w@, x) * ((x - u@) % fr_order()) + poly_eval(p@, u@))
                % fr_order() by {
                let pe = poly_eval(p@, x);
                let we = poly_eval(w@, x);
                let de = poly_eval(d@, x);
                lemma_const_eval(v@, x);
                lemma_linear_eval(u@, x);
                assert(poly_eval(num@, x) == (we * de + 0) % fr_order());
                lemma_psum_bound(p@, x, p@.len());
                lemma_small_mod(v@ as nat, fr_order() as nat);
                lemma_sub_mod_noop(pe, v@, fr_order());
                assert(poly_eval(num@, x) == (pe - v@) % fr_order());
                lemma_add_mod_noop(we * de, v@, fr_order());
                lemma_add_mod_noop(pe - v@, v@, fr_order());
                lemma_small_mod(pe as nat, fr_order() as nat);
                assert(((pe - v@) % fr_order() + v@) % fr_order() == pe);
                assert((we * de + v@) % fr_order() == pe);
            }
        }
        w
    }

    /// The aggregated witness for opening `p1 + γ·p2` at `u`: one proof covers
    /// both openings at the same point.
    pub fn aggregate_witness(p1: &Poly, p2: &Poly, u: &Scalar, gamma: &Scalar) -> (r: Poly)
        requires
            p1.wf(),
            p2.wf(),
            u.wf(),
            gamma.wf(),
        ensures
            r.wf(),
            r@.len() == 0 || r@.len() < p1@.len() || r@.len() < p2@.len(),
            forall|x: int|
                0 <= x < fr_order() ==> #[trigger] pair_eval(p1@, p2@, gamma@, x) == (poly_eval(
                    r@,
                    x,
                ) * ((x - u@) % fr_order()) + pair_eval(p1@, p2@, gamma@, u@)) % fr_order(),
    {
        let combined = p1.add_poly(&p2.scale(gamma));
        proof {
            assert forall|x: int| 0 <= x < fr_order() implies #[trigger] poly_eval(combined@, x)
                == pair_eval(p1@, p2@, gamma@, x) by {
                lemma_add_mod_noop_right(
                    poly_eval(p1@, x),
                    gamma@ * poly_eval(p2@, x),
                    fr_order(),
                );
            }
        }
        let w = Kzg::witness(&combined, u);
        proof {
            assert(poly_eval(combined@, u@) == pair_eval(p1@, p2@, gamma@, u@));
            assert forall|x: int| 0 <= x < fr_order() implies #[trigger] pair_eval(
                p1@,
                p2@,
                gamma@,
                x,
            ) == (poly_eval(w@, x) * ((x - u@) % fr_order()) + pair_eval(p1@, p2@, gamma@, u@))
                % fr_order() by {
                assert(poly_eval(combined@, x) == pair_eval(p1@, p2@, gamma@, x));
                assert(poly_eval(combined@, x) == (poly_eval(w@, x) * ((x - u@) % fr_order())
                    + poly_eval(combined@, u@)) % fr_order());
            }
        }
        w
    }

    /// The pairing check `e(π, τh − u·h) = e([P]₁ − v·g, h)`: true exactly when
    /// the discrete logarithms satisfy `π·(τ − u) = P − v`.
    pub fn verify_scalar(pi: &G1Elem, c: &G1Elem, u: &Scalar, v: &Scalar, powers: &Powers) -> (r:
        bool)
        requires
            pi.wf(),
            c.wf(),
            u.wf(),
            v.wf(),
            powers.wf(),
        ensures
            r == kzg_check(pi@, c@, u@, v@, powers.tau()),
    {
        proof {
            lemma_small_mod(u@ as nat, fr_order() as nat);
            lemma_small_mod(v@ as nat, fr_order() as nat);
        }
        let lhs_g2 = powers.g2_tau_h.sub(&powers.g2_h.mul_scalar(u));
        let lhs = pairing(pi, &lhs_g2);
        let rhs_g1 = c.sub(&G1Elem::generator().mul_scalar(v));
        let rhs = pairing(&rhs_g1, &powers.g2_h);
        proof {
            lemma_mod_bound(c@ - v@, fr_order());
            lemma_small_mod(((c@ - v@) % fr_order()) as nat, fr_order() as nat);
        }
        lhs.equals(&rhs)
    }
}

/// `p1(x) + γ·p2(x)`, reduced.
pub open spec fn pair_eval(p1: Seq<int>, p2: Seq<int>, gamma: int, x: int) -> int {
    (poly_eval(p1, x) + gamma * poly_eval(p2, x)) % fr_order()
}

/// The value of a constant polynomial built from one coefficient.
proof fn lemma_const_eval(v: int, x: int)
    requires
        0 <= v < fr_order(),
    ensures
        poly_eval(trim(seq![v]), x) == v,
{
    lemma_poly_eval_trim(seq![v], x);
    assert(pow_mod(x, 0) == 1);
    assert(psum(seq![v], x, 0) == 0);
    assert(psum(seq![v], x, 1) == (0 + v * pow_mod(x, 0)) % fr_order());
    lemma_small_mod(v as nat, fr_order() as nat);
}

/// The value of the monic linear polynomial `X − u`.
proof fn lemma_linear_eval(u: int, x: int)
    requires
        0 <= u < fr_order(),
        0 <= x < fr_order(),
    ensures
        poly_eval(seq![(0 - u) % fr_order(), 1int], x) == (x - u) % fr_order(),
{
    let q = fr_order();
    let c = seq![(0 - u) % q, 1int];
    lemma_mod_bound(0 - u, q);
    lemma_small_mod(((0 - u) % q) as nat, q as nat);
    lemma_small_mod(x as nat, q as nat);
    assert(pow_mod(x, 0) == 1);
    assert(pow_mod(x, 1) == (pow_mod(x, 0) * (x % q)) % q);
    assert(pow_mod(x, 1) == x);
    assert(psum(c, x, 0) == 0);
    assert(psum(c, x, 1) == (0 + c[0] * pow_mod(x, 0)) % q);
    assert(psum(c, x, 1) == (0 - u) % q);
    assert(psum(c, x, 2) == ((0 - u) % q + 1 * pow_mod(x, 1)) % q);
    lemma_add_mod_noop(0 - u, x, q);
    assert(poly_eval(c, x) == (0 - u + x) % q);
}

/// A polynomial of length at most one is constant.
proof fn lemma_rem_const(c: Seq<int>, u: int, x: int)
    requires
        c.len() <= 1,
        poly_eval(c, u) == 0,
    ensures
        poly_eval(c, x) == 0,
{
    if c.len() == 1 {
        assert(pow_mod(u, 0) == 1);
        assert(pow_mod(x, 0) == 1);
        assert(psum(c, u, 0) == 0);
        assert(psum(c, x, 0) == 0);
        assert(psum(c, u, 1) == (0 + c[0] * pow_mod(u, 0)) % fr_order());
        assert(psum(c, x, 1) == (0 + c[0] * pow_mod(x, 0)) % fr_order());
    }
}

/// Law: the KZG round trip. A witness made for `p` at `u` passes the pairing
/// check against the commitment of `p`, the point `u` and the true value
/// `p(u)`; and it fails the same check against every other claimed value.
pub proof fn lemma_kzg_round_trip(p: Seq<int>, w: Seq<int>, tau: int, u: int, v: int, v_other: int)
    requires
        0 <= tau < fr_order(),
        0 <= u < fr_order(),
        0 <= v_other < fr_order(),
        v == poly_eval(p, u),
        forall|x: int|
            0 <= x < fr_order() ==> #[trigger] poly_eval(p, x) == (poly_eval(w, x) * ((x - u)
                % fr_order()) + poly_eval(p, u)) % fr_order(),
    ensures
        kzg_check(poly_eval(w, tau), poly_eval(p, tau), u, v, tau),
        v_other != v ==> !kzg_check(poly_eval(w, tau), poly_eval(p, tau), u, v_other, tau),
{
    let q = fr_order();
    let pe = poly_eval(p, tau);
    let we = poly_eval(w, tau);
    lemma_psum_bound(p, tau, p.len());
    lemma_psum_bound(p, u, p.len());
    assert(pe == (we * ((tau - u) % q) + v) % q);
    lemma_sub_mod_noop(we * ((tau - u) % q) + v, v, q);
    lemma_small_mod(v as nat, q as nat);
    lemma_small_mod(pe as nat, q as nat);
    assert((pe - v) % q == (we * ((tau - u) % q)) % q);
    if v_other != v && kzg_check(we, pe, u, v_other, tau) {
        assert((pe - v_other) % q == (pe - v) % q);
        lemma_fundamental_div_mod(pe - v_other, q);
        lemma_fundamental_div_mod(pe - v, q);
        let k1 = (pe - v_other) / q;
        let k2 = (pe - v) / q;
        assert(v - v_other == q * (k1 - k2)) by (nonlinear_arith)
            requires
                pe - v_other == q * k1 + (pe - v_other) % q,
                pe - v == q * k2 + (pe - v) % q,
                (pe - v_other) % q == (pe - v) % q,
        ;
        assert(k1 == k2) by (nonlinear_arith)
            requires
                v - v_other == q * (k1 - k2),
                -q < v - v_other < q,
                q > 0,
        ;
        assert(false);
    }
}

} // verus!
