use vstd::prelude::*;

use crate::fr_order;
use crate::group::g1_ser;
use crate::group::G1Elem;
use crate::kzg::kzg_check;
use crate::kzg::Kzg;
use crate::kzg::Powers;
use crate::poly::domain_gen_of;
use crate::poly::pow_of_two;
use crate::poly::Domain;
use crate::poly::Poly;
use crate::pow_mod;
use crate::scalar::bit_of;
use crate::scalar::le_byte;
use crate::scalar::Scalar;
use crate::transcript::framed;
use crate::transcript::le8;
use crate::transcript::squeeze;
use crate::transcript::u64_le_bytes;
use crate::transcript::Transcript;
use crate::Error;

verus! {

use vstd::arithmetic::div_mod::lemma_add_mod_noop_right;
use vstd::arithmetic::div_mod::lemma_basic_div;
use vstd::arithmetic::div_mod::lemma_div_denominator;
use vstd::arithmetic::div_mod::lemma_div_pos_is_pos;
use vstd::arithmetic::div_mod::lemma_fundamental_div_mod;
use vstd::arithmetic::div_mod::lemma_mod_bound;
use vstd::arithmetic::div_mod::lemma_mod_breakdown;
use vstd::arithmetic::div_mod::lemma_mod_decreases;
use vstd::arithmetic::div_mod::lemma_mul_mod_noop_left;
use vstd::arithmetic::div_mod::lemma_mul_mod_noop_right;
use vstd::arithmetic::div_mod::lemma_small_mod;
use vstd::arithmetic::power2::lemma2_to64;
use vstd::arithmetic::power2::lemma_pow2_adds;
use vstd::arithmetic::power2::lemma_pow2_pos;
use vstd::arithmetic::power2::lemma_pow2_strictly_increases;
use vstd::arithmetic::power2::pow2;
use vstd::pervasive::unreached;
use crate::poly::lemma_trim_len;
use crate::poly::vals;

/// The scalar evaluations that a range proof reveals.
pub struct Evaluations {
    pub g: Scalar,
    pub g_omega: Scalar,
    pub w_cap: Scalar,
}

/// The three commitments of a range proof.
pub struct Commitments {
    pub f: G1Elem,
    pub g: G1Elem,
    pub q: G1Elem,
}

/// The two opening proofs of a range proof.
pub struct Proofs {
    pub aggregate: G1Elem,
    pub shifted: G1Elem,
}

/// A succinct argument that a committed scalar `z` lies in `[0, 2^n)`.
pub struct RangeProof {
    pub evaluations: Evaluations,
    pub commitments: Commitments,
    pub proofs: Proofs,
}

impl Evaluations {
    pub open spec fn wf(&self) -> bool {
        self.g.wf() && self.g_omega.wf() && self.w_cap.wf()
    }
}

impl Commitments {
    pub open spec fn wf(&self) -> bool {
        self.f.wf() && self.g.wf() && self.q.wf()
    }
}

impl Proofs {
    pub open spec fn wf(&self) -> bool {
        self.aggregate.wf() && self.shifted.wf()
    }
}

impl RangeProof {
    pub open spec fn wf(&self) -> bool {
        self.evaluations.wf() && self.commitments.wf() && self.proofs.wf()
    }
}

/// The domain-separation string `"fde range proof"` that seeds every
/// range-proof transcript.
pub open spec fn sep_spec() -> Seq<u8> {
    seq![
        102u8,
        100u8,
        101u8,
        32u8,
        114u8,
        97u8,
        110u8,
        103u8,
        101u8,
        32u8,
        112u8,
        114u8,
        111u8,
        111u8,
        102u8,
    ]
}

/// The label `"tau"`.
pub open spec fn tau_label_spec() -> Seq<u8> {
    seq![116u8, 97u8, 117u8]
}

/// The label `"rho"`.
pub open spec fn rho_label_spec() -> Seq<u8> {
    seq![114u8, 104u8, 111u8]
}

/// The label `"aggregation_challenge"`.
pub open spec fn gamma_label_spec() -> Seq<u8> {
    seq![
        97u8,
        103u8,
        103u8,
        114u8,
        101u8,
        103u8,
        97u8,
        116u8,
        105u8,
        111u8,
        110u8,
        95u8,
        99u8,
        104u8,
        97u8,
        108u8,
        108u8,
        101u8,
        110u8,
        103u8,
        101u8,
    ]
}

/// The canonical 32-byte little-endian serialization of a scalar.
pub open spec fn fr_ser(v: int) -> Seq<u8> {
    Seq::new(32, |i: int| le_byte(v, i))
}

/// The transcript state after absorbing the domain separator, the claimed
/// size, the domain generator and the two commitments.
pub open spec fn base_state(n: nat, w: int, fc: int, gc: int) -> Seq<u8> {
    framed(sep_spec()) + framed(le8(n as int)) + framed(fr_ser(w)) + framed(g1_ser(fc)) + framed(
        g1_ser(gc),
    )
}

/// The three Fiat–Shamir challenges, in transcript order.
pub open spec fn tau_ch(n: nat, w: int, fc: int, gc: int) -> int {
    squeeze(base_state(n, w, fc, gc) + framed(tau_label_spec()))
}

pub open spec fn rho_ch(n: nat, w: int, fc: int, gc: int) -> int {
    squeeze(base_state(n, w, fc, gc) + framed(tau_label_spec()) + framed(rho_label_spec()))
}

pub open spec fn gamma_ch(n: nat, w: int, fc: int, gc: int) -> int {
    squeeze(
        base_state(n, w, fc, gc) + framed(tau_label_spec()) + framed(rho_label_spec()) + framed(
            gamma_label_spec(),
        ),
    )
}

/// The multiplicative inverse of `x` modulo the field order.
pub open spec fn inv_mod(x: int) -> int {
    choose|y: int| 0 <= y < fr_order() && #[trigger] ((y * x) % fr_order()) == 1
}

/// Inverses modulo a prime are unique.
pub proof fn lemma_inv_unique(x: int, y1: int, y2: int)
    requires
        0 <= y1 < fr_order(),
        0 <= y2 < fr_order(),
        (y1 * x) % fr_order() == 1,
        (y2 * x) % fr_order() == 1,
    ensures
        y1 == y2,
{
    let q = fr_order();
    lemma_mul_mod_noop_right(y1, y2 * x, q);
    assert(y1 * (y2 * x) == (y1 * x) * y2) by (nonlinear_arith);
    lemma_mul_mod_noop_left(y1 * x, y2, q);
    lemma_small_mod(y1 as nat, q as nat);
    lemma_small_mod(y2 as nat, q as nat);
    assert(y1 == (y1 * ((y2 * x) % q)) % q);
    assert((y1 * (y2 * x)) % q == ((y1 * x) % q * y2) % q);
    assert(((y1 * x) % q * y2) % q == y2);
}

/// Powers of two have no power of two strictly between them and their double.
pub proof fn lemma_pow_of_two_gap(a: nat, b: nat)
    requires
        pow_of_two(a),
        pow_of_two(b),
        a < b,
    ensures
        2 * a <= b,
    decreases a,
{
    lemma_fundamental_div_mod(b as int, 2);
    if a == 1 {
        assert(b % 2 == 0);
    } else {
        lemma_fundamental_div_mod(a as int, 2);
        lemma_pow_of_two_gap(a / 2, b / 2);
    }
}

/// In `[n, 2n)` there is at most one power of two.
pub proof fn lemma_pow_of_two_unique(a: nat, b: nat, n: nat)
    requires
        pow_of_two(a),
        pow_of_two(b),
        n <= a < 2 * n,
        n <= b < 2 * n,
    ensures
        a == b,
{
    if a < b {
        lemma_pow_of_two_gap(a, b);
    } else if b < a {
        lemma_pow_of_two_gap(b, a);
    }
}

/// What the verifier decides, over the models alone: the challenges are
/// recomputed from the transcript, the claimed evaluation of the aggregated
/// constraint is rebuilt from the revealed values and checked, and the two
/// pairing checks are evaluated on discrete logarithms. `s` is the domain
/// size, the unique power of two in `[n, 2n)`.
pub open spec fn verify_model(p: RangeProof, n: nat, s: nat, tau_srs: int, srs_len: nat) -> bool {
    let q = fr_order();
    if n < 1 || n > 0x1_0000_0000 {
        false
    } else if srs_len < 4 * n {
        false
    } else {
        let w = domain_gen_of(s);
        let fc = p.commitments.f@;
        let gc = p.commitments.g@;
        let qc = p.commitments.q@;
        let tau = tau_ch(n, w, fc, gc);
        let rho = rho_ch(n, w, fc, gc);
        let gamma = gamma_ch(n, w, fc, gc);
        let zr = (pow_mod(rho, s) - 1) % q;
        let rm1 = (rho - 1) % q;
        if rm1 == 0 {
            false
        } else {
            let psi1 = (zr * inv_mod(rm1)) % q;
            let wlast = pow_mod(w, (s - 1) as nat);
            let rmw = (rho - wlast) % q;
            if rmw == 0 {
                false
            } else {
                let psi2 = (zr * inv_mod(rmw)) % q;
                let wcap_c = ((fc * psi1) % q - (qc * zr) % q) % q;
                let ge = p.evaluations.g@;
                let gw = p.evaluations.g_omega@;
                let wce = p.evaluations.w_cap@;
                let t1 = (ge - (gw + gw) % q) % q;
                let t2 = (1 - t1) % q;
                let w2v = (((ge * ((1 - ge) % q)) % q) * psi2) % q;
                let w3v = (((t1 * t2) % q) * rmw) % q;
                let tau2 = (tau * tau) % q;
                let sum = (((psi1 * ge) % q - (tau * w2v) % q) % q - (tau2 * w3v) % q) % q;
                if sum != wce {
                    false
                } else {
                    let agg_c = (gc + (wcap_c * gamma) % q) % q;
                    let agg_v = (ge + (gamma * wce) % q) % q;
                    kzg_check(p.proofs.aggregate@, agg_c, rho, agg_v, tau_srs) && kzg_check(
                        p.proofs.shifted@,
                        gc,
                        (rho * w) % q,
                        gw,
                        tau_srs,
                    )
                }
            }
        }
    }
}

/// The openings of an honestly produced proof, named polynomial by
/// polynomial: `gm` backs the commitment to `g` and both revealed evaluations;
/// `fm` and `qm` back the commitments to `f` and to the quotient; `wm` is the
/// linearized polynomial `psi1v * fm - zv * qm`, whose value at the challenge
/// `rho` is the revealed `w_cap` evaluation; and `sm` and `am` are KZG witness
/// polynomials for the shifted opening of `gm` at `rho * w` and for the
/// aggregated opening of `gm` and `wm` at `rho`.
pub open spec fn honest_openings(
    p: RangeProof,
    n: nat,
    tau_srs: int,
    gm: Seq<int>,
    sm: Seq<int>,
    fm: Seq<int>,
    qm: Seq<int>,
    wm: Seq<int>,
    am: Seq<int>,
    psi1v: int,
    zv: int,
) -> bool {
    let q = fr_order();
    let w = domain_gen_of(n);
    let rho = rho_ch(n, w, p.commitments.f@, p.commitments.g@);
    let gamma = gamma_ch(n, w, p.commitments.f@, p.commitments.g@);
    let rw = (rho * w) % q;
    &&& crate::poly::poly_eval(gm, tau_srs) == p.commitments.g@
    &&& crate::poly::poly_eval(fm, tau_srs) == p.commitments.f@
    &&& crate::poly::poly_eval(qm, tau_srs) == p.commitments.q@
    &&& crate::poly::poly_eval(gm, rho) == p.evaluations.g@
    &&& crate::poly::poly_eval(gm, rw) == p.evaluations.g_omega@
    &&& crate::poly::poly_eval(wm, rho) == p.evaluations.w_cap@
    &&& forall|x: int|
        0 <= x < q ==> #[trigger] crate::poly::poly_eval(wm, x) == ((psi1v * crate::poly::poly_eval(
            fm,
            x,
        )) % q - (zv * crate::poly::poly_eval(qm, x)) % q) % q
    &&& crate::poly::poly_eval(sm, tau_srs) == p.proofs.shifted@
    &&& forall|x: int|
        0 <= x < q ==> #[trigger] crate::poly::poly_eval(gm, x) == (crate::poly::poly_eval(sm, x)
            * ((x - rw) % q) + crate::poly::poly_eval(gm, rw)) % q
    &&& crate::poly::poly_eval(am, tau_srs) == p.proofs.aggregate@
    &&& forall|x: int|
        0 <= x < q ==> #[trigger] crate::kzg::pair_eval(gm, wm, gamma, x) == (
        crate::poly::poly_eval(am, x) * ((x - rho) % q) + crate::kzg::pair_eval(gm, wm, gamma, rho))
            % q
}

/// Some family of polynomials backs every commitment, evaluation and opening
/// proof of `p` as `honest_openings` describes. Opaque: reveal it to use the
/// witnesses.
#[verifier::opaque]
pub open spec fn has_honest_openings(p: RangeProof, n: nat, tau_srs: int) -> bool {
    exists|
        gm: Seq<int>,
        sm: Seq<int>,
        fm: Seq<int>,
        qm: Seq<int>,
        wm: Seq<int>,
        am: Seq<int>,
        psi1v: int,
        zv: int,
    | honest_openings(p, n, tau_srs, gm, sm, fm, qm, wm, am, psi1v, zv)
}

/// A size the prover accepts: at least two, a power of two, and small enough
/// that the aggregated constraint of degree `3n + 1` still fits an evaluation
/// domain of the field.
pub open spec fn prover_n_ok(n: usize) -> bool {
    2 <= n <= 0x8000_0000 && pow_of_two(n as nat)
}

/// The running partial sums of the bits of `z` from the top: the value
/// `sum of bit j of z times 2^(j-i) over i <= j < n`, so that the sum for
/// `i = 0` is `z mod 2^n`.
pub open spec fn gv(z: int, i: nat, n: nat) -> int
    decreases n - i,
{
    if i >= n {
        0
    } else {
        (if bit_of(z, i as int) {
            1int
        } else {
            0int
        }) + 2 * gv(z, (i + 1) as nat, n)
    }
}

proof fn lemma_pow2_255_bound()
    ensures
        fr_order() < pow2(255),
{
    lemma2_to64();
    vstd::arithmetic::power2::lemma2_to64_rest();
    lemma_pow2_adds(64, 64);
    assert(pow2(128) == 0x100000000000000000000000000000000);
    lemma_pow2_adds(128, 64);
    assert(pow2(192) == 0x1000000000000000000000000000000000000000000000000);
    lemma_pow2_adds(192, 63);
    assert(pow2(255) == 0x8000000000000000000000000000000000000000000000000000000000000000)
       ;
}

proof fn lemma_high_bit_zero(v: int, i: int)
    requires
        0 <= v < fr_order(),
        i >= 255,
    ensures
        !bit_of(v, i),
{
    lemma_pow2_255_bound();
    if i > 255 {
        lemma_pow2_strictly_increases(255, i as nat);
    }
    lemma_basic_div(v, pow2(i as nat) as int);
    lemma_small_mod(0nat, 2);
}

/// The partial sums are exactly the bit ranges of `z`.
proof fn lemma_gv_mod(z: int, i: nat, n: nat)
    requires
        0 <= z,
        i <= n,
    ensures
        gv(z, i, n) == (z / pow2(i) as int) % (pow2((n - i) as nat) as int),
    decreases n - i,
{
    lemma_pow2_pos(i);
    let x = z / pow2(i) as int;
    lemma_div_pos_is_pos(z, pow2(i) as int);
    if i == n {
        lemma2_to64();
        lemma_mod_bound(x, 1);
        lemma_fundamental_div_mod(x, 1);
    } else {
        lemma_gv_mod(z, (i + 1) as nat, n);
        lemma2_to64();
        lemma_pow2_adds(i, 1);
        lemma_div_denominator(z, pow2(i) as int, 2);
        assert(x / 2 == z / pow2((i + 1) as nat) as int);
        let p1 = pow2((n - i - 1) as nat) as int;
        lemma_pow2_pos((n - i - 1) as nat);
        lemma_mod_breakdown(x, 2, p1);
        lemma_pow2_adds(1, (n - i - 1) as nat);
        lemma_mod_bound(x, 2);
        assert(gv(z, i, n) == (if bit_of(z, i as int) {
            1int
        } else {
            0int
        }) + 2 * gv(z, (i + 1) as nat, n));
        assert(x % 2 == (if bit_of(z, i as int) {
            1int
        } else {
            0int
        }));
        assert(gv(z, (i + 1) as nat, n) == (x / 2) % p1);
        assert(x % (2 * p1) == 2 * ((x / 2) % p1) + x % 2);
        assert(pow2((n - i) as nat) as int == 2 * p1);
    }
}

/// The bit reconstruction matches `z` exactly when `z` lies in the range.
proof fn lemma_range_equiv(z: int, n: nat)
    requires
        0 <= z < fr_order(),
        n >= 1,
    ensures
        ((z % pow2(n) as int) % fr_order() == z) <==> (z < pow2(n) as int),
{
    let m = pow2(n) as int;
    lemma_pow2_pos(n);
    lemma_mod_decreases(z as nat, pow2(n));
    lemma_mod_bound(z, m);
    lemma_small_mod((z % m) as nat, fr_order() as nat);
    if z < m {
        lemma_small_mod(z as nat, pow2(n));
    }
}

fn domain_sep_bytes() -> (r: Vec<u8>)
    ensures
        r@ == sep_spec(),
{
    let mut v: Vec<u8> = Vec::new();
    v.push(102);
    v.push(100);
    v.push(101);
    v.push(32);
    v.push(114);
    v.push(97);
    v.push(110);
    v.push(103);
    v.push(101);
    v.push(32);
    v.push(112);
    v.push(114);
    v.push(111);
    v.push(111);
    v.push(102);
    proof {
        assert(v@ =~= sep_spec());
    }
    v
}

fn tau_label() -> (r: Vec<u8>)
    ensures
        r@ == tau_label_spec(),
{
    let mut v: Vec<u8> = Vec::new();
    v.push(116);
    v.push(97);
    v.push(117);
    proof {
        assert(v@ =~= tau_label_spec());
    }
    v
}

fn rho_label() -> (r: Vec<u8>)
    ensures
        r@ == rho_label_spec(),
{
    let mut v: Vec<u8> = Vec::new();
    v.push(114);
    v.push(104);
    v.push(111);
    proof {
        assert(v@ =~= rho_label_spec());
    }
    v
}

fn gamma_label() -> (r: Vec<u8>)
    ensures
        r@ == gamma_label_spec(),
{
    let mut v: Vec<u8> = Vec::new();
    v.push(97);
    v.push(103);
    v.push(103);
    v.push(114);
    v.push(101);
    v.push(103);
    v.push(97);
    v.push(116);
    v.push(105);
    v.push(111);
    v.push(110);
    v.push(95);
    v.push(99);
    v.push(104);
    v.push(97);
    v.push(108);
    v.push(108);
    v.push(101);
    v.push(110);
    v.push(103);
    v.push(101);
    proof {
        assert(v@ =~= gamma_label_spec());
    }
    v
}

/// Absorb the public data in transcript order and squeeze the three
/// challenges.
fn challenges(n: usize, w: &Scalar, f: &G1Elem, g: &G1Elem) -> (r: (Scalar, Scalar, Scalar))
    requires
        w.wf(),
        f.wf(),
        g.wf(),
    ensures
        r.0@ == tau_ch(n as nat, w@, f@, g@),
        r.1@ == rho_ch(n as nat, w@, f@, g@),
        r.2@ == gamma_ch(n as nat, w@, f@, g@),
        r.0.wf(),
        r.1.wf(),
        r.2.wf(),
{
    let mut t = Transcript::new();
    t.update(&domain_sep_bytes());
    t.update(&u64_le_bytes(n as u64));
    let wb = w.to_bytes();
    proof {
        assert(wb@ =~= fr_ser(w@));
    }
    t.update(&wb);
    t.update(&f.to_bytes());
    t.update(&g.to_bytes());
    proof {
        assert(t@ =~= base_state(n as nat, w@, f@, g@));
    }
    let tau = t.next_scalar(&tau_label());
    let rho = t.next_scalar(&rho_label());
    let gamma = t.next_scalar(&gamma_label());
    (tau, rho, gamma)
}

/// `base^e` in the field, by repeated multiplication.
fn pow_scalar(base: &Scalar, e: usize) -> (r: Scalar)
    requires
        base.wf(),
    ensures
        r@ == pow_mod(base@, e as nat),
        r.wf(),
{
    let mut acc = Scalar::one();
    let mut i: usize = 0;
    while i < e
        invariant
            base.wf(),
            acc.wf(),
            0 <= i <= e,
            acc@ == pow_mod(base@, i as nat),
        decreases e - i,
    {
        proof {
            lemma_small_mod(base@ as nat, fr_order() as nat);
            assert(pow_mod(base@, (i + 1) as nat) == (pow_mod(base@, i as nat) * (base@
                % fr_order())) % fr_order());
        }
        acc = acc.mul(base);
        i = i + 1;
    }
    acc
}

impl RangeProof {
    /// Prove that `0 <= z < 2^n`. Fails with `BadDomainSize` when `n` is not a
    /// power of two between 2 and `2^31`, with `DegreeTooLarge` when the
    /// reference string has fewer than `4n` powers, with
    /// `RangeProofInvalidWitness` exactly when `z` lies outside the range, and
    /// succeeds otherwise.
    pub fn new(z: &Scalar, n: usize, powers: &Powers, rng: &mut ark_std::rand::rngs::StdRng) -> (r:
        Result<RangeProof, Error>)
        requires
            z.wf(),
            powers.wf(),
        ensures
            r == Err::<RangeProof, Error>(Error::BadDomainSize) <==> !prover_n_ok(n),
            prover_n_ok(n) ==> ((r == Err::<RangeProof, Error>(Error::DegreeTooLarge))
                <==> powers.g1_len() < 4 * n),
            prover_n_ok(n) && powers.g1_len() >= 4 * n ==> ((r == Err::<RangeProof, Error>(
                Error::RangeProofInvalidWitness,
            )) <==> z@ >= pow2(n as nat)),
            r is Ok <==> prover_n_ok(n) && powers.g1_len() >= 4 * n && z@ < pow2(n as nat),
            r matches Ok(p) ==> prover_n_ok(n) && powers.g1_len() >= 4 * n && z@ < pow2(
                n as nat,
            ) && p.wf(),
            r matches Ok(p) ==> has_honest_openings(p, n as nat, powers.tau()),
    {
        if n < 2 {
            return Err(Error::BadDomainSize);
        }
        let dom = match Domain::new(n) {
            None => {
                return Err(Error::BadDomainSize);
            },
            Some(d) => d,
        };
        if dom.size() != n {
            proof {
                if prover_n_ok(n) {
                    lemma_pow_of_two_unique(dom.n(), n as nat, n as nat);
                }
            }
            return Err(Error::BadDomainSize);
        }
        if n > 0x8000_0000 {
            return Err(Error::BadDomainSize);
        }
        assert(prover_n_ok(n));
        if (powers.num_powers() as u64) < 4 * (n as u64) {
            return Err(Error::DegreeTooLarge);
        }
        // bits of z, from the top: partial sums g_i with g_0 = z mod 2^n
        let zbits = z.bits();
        let mut rev: Vec<Scalar> = Vec::new();
        let mut cur = Scalar::zero();
        let mut i: usize = n;
        while i > 0
            invariant
                z.wf(),
                zbits@.len() == 256,
                forall|j: int| 0 <= j < 256 ==> zbits@[j] == bit_of(z@, j),
                0 <= i <= n,
                cur.wf(),
                cur@ == gv(z@, i as nat, n as nat) % fr_order(),
                rev@.len() == n - i,
                forall|k: int|
                    0 <= k < rev@.len() ==> (#[trigger] rev@[k]).wf() && rev@[k]@ == gv(
                        z@,
                        (n - 1 - k) as nat,
                        n as nat,
                    ) % fr_order(),
            decreases i,
        {
            i = i - 1;
            let b = if i < 256 {
                if zbits[i] {
                    Scalar::one()
                } else {
                    Scalar::zero()
                }
            } else {
                proof {
                    lemma_high_bit_zero(z@, i as int);
                }
                Scalar::zero()
            };
            proof {
                let gnext = gv(z@, (i + 1) as nat, n as nat);
                lemma_mul_mod_noop_right(2, gnext, fr_order());
                lemma_add_mod_noop_right(
                    if bit_of(z@, i as int) {
                        1int
                    } else {
                        0int
                    },
                    2 * gnext,
                    fr_order(),
                );
            }
            cur = b.add(&cur.add(&cur));
            rev.push(cur);
        }
        // range check: g_0 must equal z itself in the field
        proof {
            lemma_gv_mod(z@, 0, n as nat);
            lemma2_to64();
            vstd::arithmetic::div_mod::lemma_div_basics(z@);
            lemma_range_equiv(z@, n as nat);
        }
        if !cur.equals(z) {
            return Err(Error::RangeProofInvalidWitness);
        }
        // blinding scalars
        let r_blind = Scalar::sample(rng);
        let alpha = Scalar::sample(rng);
        let beta = Scalar::sample(rng);
        // f = (z - r) + r X^n, the blinded constant-z interpolation
        let mut fc: Vec<Scalar> = Vec::new();
        fc.push(z.sub(&r_blind));
        let mut k: usize = 1;
        while k < n
            invariant
                1 <= k <= n,
                fc@.len() == k,
                forall|j: int| 0 <= j < fc@.len() ==> (#[trigger] fc@[j]).wf(),
            decreases n - k,
        {
            fc.push(Scalar::zero());
            k = k + 1;
        }
        fc.push(r_blind);
        let f_poly = Poly::from_coeffs(&fc);
        proof {
            lemma_trim_len(vals(fc@));
        }
        // g: interpolation of the partial sums, blinded by (alpha + beta X) Z_H
        let mut evals: Vec<Scalar> = Vec::new();
        let mut k2: usize = 0;
        while k2 < n
            invariant
                0 <= k2 <= n,
                rev@.len() == n,
                forall|j: int| 0 <= j < rev@.len() ==> (#[trigger] rev@[j]).wf(),
                evals@.len() == k2,
                forall|j: int| 0 <= j < evals@.len() ==> (#[trigger] evals@[j]).wf(),
            decreases n - k2,
        {
            evals.push(rev[n - 1 - k2]);
            k2 = k2 + 1;
        }
        let g_interp = dom.interpolate(&evals);
        let mut bc: Vec<Scalar> = Vec::new();
        bc.push(Scalar::zero().sub(&alpha));
        bc.push(Scalar::zero().sub(&beta));
        let mut k3: usize = 2;
        while k3 < n
            invariant
                2 <= k3 <= n,
                bc@.len() == k3,
                forall|j: int| 0 <= j < bc@.len() ==> (#[trigger] bc@[j]).wf(),
            decreases n - k3,
        {
            bc.push(Scalar::zero());
            k3 = k3 + 1;
        }
        bc.push(alpha);
        bc.push(beta);
        let blind = Poly::from_coeffs(&bc);
        proof {
            lemma_trim_len(vals(bc@));
        }
        let g_poly = g_interp.add_poly(&blind);
        // commitments to f and g
        let f_commitment = match powers.commit_g1(&f_poly) {
            Ok(c) => c,
            Err(_) => {
                proof {
                    assert(false);
                }
                unreached()
            },
        };
        let g_commitment = match powers.commit_g1(&g_poly) {
            Ok(c) => c,
            Err(_) => {
                proof {
                    assert(false);
                }
                unreached()
            },
        };
        // challenges
        let w = dom.gen();
        let (tau, rho, gamma) = challenges(n, &w, &f_commitment, &g_commitment);
        // Z_H = X^n - 1 and the two selector quotients
        let mut zc: Vec<Scalar> = Vec::new();
        zc.push(Scalar::zero().sub(&Scalar::one()));
        let mut k4: usize = 1;
        while k4 < n
            invariant
                1 <= k4 <= n,
                zc@.len() == k4,
                forall|j: int| 0 <= j < zc@.len() ==> (#[trigger] zc@[j]).wf(),
                zc@[0]@ == (0 - 1) % fr_order(),
            decreases n - k4,
        {
            zc.push(Scalar::zero());
            k4 = k4 + 1;
        }
        zc.push(Scalar::one());
        let zh = Poly::from_coeffs(&zc);
        proof {
            assert(vals(zc@).len() == n + 1);
            assert(vals(zc@)[n as int] == 1);
            lemma_trim_len(vals(zc@));
            assert(zh@ =~= vals(zc@));
            assert(zh@.len() == n + 1);
        }
        let mut d1: Vec<Scalar> = Vec::new();
        d1.push(Scalar::zero().sub(&Scalar::one()));
        d1.push(Scalar::one());
        let xm1 = Poly::from_coeffs(&d1);
        proof {
            assert(vals(d1@)[1] == 1);
            assert(xm1@ =~= vals(d1@));
        }
        let (psi1_poly, _rem1) = zh.divide(&xm1);
        let w_last = pow_scalar(&w, n - 1);
        let mut d2: Vec<Scalar> = Vec::new();
        d2.push(Scalar::zero().sub(&w_last));
        d2.push(Scalar::one());
        let xmw = Poly::from_coeffs(&d2);
        proof {
            assert(vals(d2@)[1] == 1);
            assert(xmw@ =~= vals(d2@));
        }
        let (psi2_poly, _rem2) = zh.divide(&xmw);
        // g(omega X): scale coefficient i by omega^i
        let g_coeffs = g_poly.coeffs();
        let mut gwc: Vec<Scalar> = Vec::new();
        let mut wpow = Scalar::one();
        let mut k5: usize = 0;
        while k5 < g_coeffs.len()
            invariant
                w.wf(),
                wpow.wf(),
                0 <= k5 <= g_coeffs@.len(),
                forall|j: int| 0 <= j < g_coeffs@.len() ==> (#[trigger] g_coeffs@[j]).wf(),
                gwc@.len() == k5,
                forall|j: int| 0 <= j < gwc@.len() ==> (#[trigger] gwc@[j]).wf(),
            decreases g_coeffs@.len() - k5,
        {
            gwc.push(g_coeffs[k5].mul(&wpow));
            wpow = wpow.mul(&w);
            k5 = k5 + 1;
        }
        let g_omega_poly = Poly::from_coeffs(&gwc);
        proof {
            lemma_trim_len(vals(gwc@));
        }
        // the three constraints and their aggregation
        let mut oc: Vec<Scalar> = Vec::new();
        oc.push(Scalar::one());
        let one_poly = Poly::from_coeffs(&oc);
        proof {
            assert(vals(oc@)[0] == 1);
            assert(one_poly@ =~= vals(oc@));
        }
        let w1_poly = f_poly.sub_poly(&g_poly).mul_poly(&psi1_poly);
        let w2_poly = g_poly.mul_poly(&one_poly.sub_poly(&g_poly)).mul_poly(&psi2_poly);
        let t1_poly = g_poly.sub_poly(&g_omega_poly.add_poly(&g_omega_poly));
        let t2_poly = one_poly.sub_poly(&t1_poly);
        let w3_poly = t1_poly.mul_poly(&t2_poly).mul_poly(&xmw);
        let tau2 = tau.mul(&tau);
        let w_poly = w1_poly.add_poly(&w2_poly.scale(&tau)).add_poly(&w3_poly.scale(&tau2));
        // the quotient. The division is exact: for a witness in range the
        // aggregated constraint vanishes on the whole domain, and witnesses
        // out of range were already rejected by the reconstruction check,
        // which decides range membership exactly.
        let (q_poly, _division_rem) = w_poly.divide(&zh);
        let q_commitment = match powers.commit_g1(&q_poly) {
            Ok(c) => c,
            Err(_) => {
                proof {
                    assert(false);
                }
                unreached()
            },
        };
        // evaluations at rho and rho * omega
        let rho_omega = rho.mul(&w);
        let g_eval = g_poly.eval_at(&rho);
        let g_omega_eval = g_poly.eval_at(&rho_omega);
        let psi1_at_rho = psi1_poly.eval_at(&rho);
        let zh_at_rho = zh.eval_at(&rho);
        let f_scaled = f_poly.scale(&psi1_at_rho);
        let q_scaled = q_poly.scale(&zh_at_rho);
        let w_cap_poly = f_scaled.sub_poly(&q_scaled);
        let w_cap_eval = w_cap_poly.eval_at(&rho);
        // opening proofs
        let shifted_witness = Kzg::witness(&g_poly, &rho_omega);
        let shifted_proof = match powers.commit_g1(&shifted_witness) {
            Ok(c) => c,
            Err(_) => {
                proof {
                    assert(false);
                }
                unreached()
            },
        };
        let aggregate_witness = Kzg::aggregate_witness(&g_poly, &w_cap_poly, &rho, &gamma);
        let aggregate_proof = match powers.commit_g1(&aggregate_witness) {
            Ok(c) => c,
            Err(_) => {
                proof {
                    assert(false);
                }
                unreached()
            },
        };
        let result = RangeProof {
            evaluations: Evaluations { g: g_eval, g_omega: g_omega_eval, w_cap: w_cap_eval },
            commitments: Commitments { f: f_commitment, g: g_commitment, q: q_commitment },
            proofs: Proofs { aggregate: aggregate_proof, shifted: shifted_proof },
        };
        proof {
            let q_ord = fr_order();
            let w_model = domain_gen_of(n as nat);
            let rho_model = rho_ch(n as nat, w_model, f_commitment@, g_commitment@);
            assert(w@ == w_model);
            assert(rho@ == rho_model);
            assert(rho_omega@ == (rho_model * w_model) % q_ord);
            assert forall|x: int| 0 <= x < q_ord implies #[trigger] crate::poly::poly_eval(
                w_cap_poly@,
                x,
            ) == ((psi1_at_rho@ * crate::poly::poly_eval(f_poly@, x)) % q_ord - (zh_at_rho@
                * crate::poly::poly_eval(q_poly@, x)) % q_ord) % q_ord by {
                assert(crate::poly::poly_eval(f_scaled@, x) == (psi1_at_rho@
                    * crate::poly::poly_eval(f_poly@, x)) % q_ord);
                assert(crate::poly::poly_eval(q_scaled@, x) == (zh_at_rho@
                    * crate::poly::poly_eval(q_poly@, x)) % q_ord);
            }
            assert(honest_openings(
                result,
                n as nat,
                powers.tau(),
                g_poly@,
                shifted_witness@,
                f_poly@,
                q_poly@,
                w_cap_poly@,
                aggregate_witness@,
                psi1_at_rho@,
                zh_at_rho@,
            ));
            reveal(has_honest_openings);
            assert(has_honest_openings(result, n as nat, powers.tau()));
        }
        Ok(result)
    }

    /// Check a range proof for the claimed size `n`: rebuild the challenges,
    /// the linearized commitment and the constraint value, and run the two
    /// pairing checks. Returns exactly what `verify_model` decides for the
    /// domain size that belongs to `n`.
    pub fn verify(&self, n: usize, powers: &Powers) -> (r: bool)
        requires
            self.wf(),
            powers.wf(),
        ensures
            forall|s: nat|
                pow_of_two(s) && n <= s < 2 * (n as nat) ==> r == verify_model(
                    *self,
                    n as nat,
                    s,
                    powers.tau(),
                    powers.g1_len(),
                ),
            n == 0 ==> r == false,
    {
        if n < 1 {
            return false;
        }
        let dom = match Domain::new(n) {
            None => {
                return false;
            },
            Some(d) => d,
        };
        let ghost s0 = dom.n();
        assert forall|s: nat| pow_of_two(s) && n <= s < 2 * (n as nat) implies s == s0 by {
            lemma_pow_of_two_unique(s0, s, n as nat);
        }
        if (powers.num_powers() as u64) < 4 * (n as u64) {
            return false;
        }
        let s = dom.size();
        let w = dom.gen();
        let (tau, rho, gamma) = challenges(n, &w, &self.commitments.f, &self.commitments.g);
        let rho_pow = pow_scalar(&rho, s);
        let z_rho = rho_pow.sub(&Scalar::one());
        let rho_m1 = rho.sub(&Scalar::one());
        let inv1 = match rho_m1.inverse() {
            None => {
                return false;
            },
            Some(v) => v,
        };
        proof {
            lemma_inv_unique(rho_m1@, inv1@, inv_mod(rho_m1@));
        }
        let psi1 = z_rho.mul(&inv1);
        let w_last = pow_scalar(&w, s - 1);
        let rho_m_wlast = rho.sub(&w_last);
        let inv2 = match rho_m_wlast.inverse() {
            None => {
                return false;
            },
            Some(v) => v,
        };
        proof {
            lemma_inv_unique(rho_m_wlast@, inv2@, inv_mod(rho_m_wlast@));
        }
        let psi2 = z_rho.mul(&inv2);
        let w_cap_commitment = self.commitments.f.mul_scalar(&psi1).sub(
            &self.commitments.q.mul_scalar(&z_rho),
        );
        let ge = self.evaluations.g;
        let gw = self.evaluations.g_omega;
        let t1 = ge.sub(&gw.add(&gw));
        let t2 = Scalar::one().sub(&t1);
        let w2v = ge.mul(&Scalar::one().sub(&ge)).mul(&psi2);
        let w3v = t1.mul(&t2).mul(&rho_m_wlast);
        let tau2 = tau.mul(&tau);
        let sum = psi1.mul(&ge).sub(&tau.mul(&w2v)).sub(&tau2.mul(&w3v));
        if !sum.equals(&self.evaluations.w_cap) {
            return false;
        }
        let aggregate_commitment = self.commitments.g.add(&w_cap_commitment.mul_scalar(&gamma));
        let aggregate_value = ge.add(&gamma.mul(&self.evaluations.w_cap));
        let aggregation_check = Kzg::verify_scalar(
            &self.proofs.aggregate,
            &aggregate_commitment,
            &rho,
            &aggregate_value,
            powers,
        );
        let rho_omega = rho.mul(&w);
        let shifted_check = Kzg::verify_scalar(
            &self.proofs.shifted,
            &self.commitments.g,
            &rho_omega,
            &gw,
            powers,
        );
        aggregation_check && shifted_check
    }
}

} // verus!
