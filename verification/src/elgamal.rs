use vstd::prelude::*;

use crate::fr_order;
use crate::group::G1Elem;
use crate::scalar::Scalar;

verus! {

use vstd::arithmetic::div_mod::lemma_add_mod_noop;
use vstd::arithmetic::div_mod::lemma_add_mod_noop_right;
use vstd::arithmetic::div_mod::lemma_mod_bound;
use vstd::arithmetic::div_mod::lemma_mul_mod_noop_left;
use vstd::arithmetic::div_mod::lemma_small_mod;
use vstd::arithmetic::div_mod::lemma_sub_mod_noop;
use vstd::arithmetic::div_mod::lemma_sub_mod_noop_right;
use vstd::arithmetic::mul::lemma_mul_is_commutative;
use vstd::arithmetic::mul::lemma_mul_is_distributive_add;

/// An exponential-ElGamal ciphertext: the pair `(c0, c1) = (r·g, m·g + r·pk)`,
/// or a component-wise sum of such pairs.
#[derive(Clone, Copy)]
pub struct Cipher {
    pub(crate) c0: G1Elem,
    pub(crate) c1: G1Elem,
}

/// `c` is the encryption of `m` under public key `pk` with nonce `r`, all
/// given as discrete logarithms.
pub open spec fn is_encryption(m: int, pk: int, r: int, c: Cipher) -> bool {
    &&& 0 <= r < fr_order()
    &&& c.c0v() == r
    &&& c.c1v() == (m + r * pk) % fr_order()
}

/// The discrete logarithm of the decrypted point `c1 - sk·c0`.
pub open spec fn decrypt_point(c0: int, c1: int, sk: int) -> int {
    (c1 - sk * c0) % fr_order()
}

/// What brute-force decryption returns: the decrypted exponent if it lies
/// below `2^32`, and the boundary `2^32` itself when the search fails.
pub open spec fn decrypted_scalar(c0: int, c1: int, sk: int) -> int {
    if decrypt_point(c0, c1, sk) < 0x1_0000_0000 {
        decrypt_point(c0, c1, sk)
    } else {
        0x1_0000_0000int
    }
}

impl Cipher {
    pub closed spec fn c0v(&self) -> int {
        self.c0@
    }

    pub closed spec fn c1v(&self) -> int {
        self.c1@
    }

    pub open spec fn wf(&self) -> bool {
        0 <= self.c0v() < fr_order() && 0 <= self.c1v() < fr_order()
    }

    pub fn c0(&self) -> (r: G1Elem)
        ensures
            r@ == self.c0v(),
    {
        self.c0
    }

    pub fn c1(&self) -> (r: G1Elem)
        ensures
            r@ == self.c1v(),
    {
        self.c1
    }

    /// Component-wise addition: ciphertexts are additively homomorphic.
    pub fn add(&self, o: &Cipher) -> (r: Cipher)
        requires
            self.wf(),
            o.wf(),
        ensures
            r.c0v() == (self.c0v() + o.c0v()) % fr_order(),
            r.c1v() == (self.c1v() + o.c1v()) % fr_order(),
            r.wf(),
    {
        Cipher { c0: self.c0.add(&o.c0), c1: self.c1.add(&o.c1) }
    }
}

/// Exponential ElGamal over the first group of BLS12-381: the plaintext sits in
/// the exponent, so ciphertexts add.
pub struct ExponentialElGamal {}

impl ExponentialElGamal {
    /// `(r·g, m·g + r·pk)` for the given nonce `r`.
    pub fn encrypt_with_randomness(data: &Scalar, key: &G1Elem, randomness: &Scalar) -> (r: Cipher)
        requires
            data.wf(),
            key.wf(),
            randomness.wf(),
        ensures
            is_encryption(data@, key@, randomness@, r),
            r.wf(),
    {
        let g = G1Elem::generator();
        let shared_secret = key.mul_scalar(randomness);
        let c0 = g.mul_scalar(randomness);
        let c1 = g.mul_scalar(data).add(&shared_secret);
        proof {
            lemma_small_mod(randomness@ as nat, fr_order() as nat);
            lemma_small_mod(data@ as nat, fr_order() as nat);
            lemma_mul_is_commutative(key@, randomness@);
            lemma_add_mod_noop_right(data@, key@ * randomness@, fr_order());
        }
        Cipher { c0, c1 }
    }

    /// Encrypt under a fresh uniform nonce.
    pub fn encrypt(data: &Scalar, key: &G1Elem, rng: &mut ark_std::rand::rngs::StdRng) -> (r:
        Cipher)
        requires
            data.wf(),
            key.wf(),
        ensures
            exists|nonce: int| is_encryption(data@, key@, nonce, r),
            r.wf(),
    {
        let nonce = Scalar::sample(rng);
        let c = Self::encrypt_with_randomness(data, key, &nonce);
        proof {
            assert(is_encryption(data@, key@, nonce@, c));
        }
        c
    }

    /// The decrypted point `c1 - sk·c0`; for an honest ciphertext this is `m·g`.
    pub fn decrypt_exp(cipher: &Cipher, key: &Scalar) -> (r: G1Elem)
        requires
            cipher.wf(),
            key.wf(),
        ensures
            r@ == decrypt_point(cipher.c0v(), cipher.c1v(), key@),
            r.wf(),
    {
        let shared_secret = cipher.c0().mul_scalar(key);
        let p = cipher.c1().sub(&shared_secret);
        proof {
            lemma_mul_is_commutative(cipher.c0v(), key@);
            lemma_sub_mod_noop_right(cipher.c1v(), key@ * cipher.c0v(), fr_order());
        }
        p
    }

    /// Recover the exponent of `decrypted` by exhaustive search over `[0, 2^32)`;
    /// the boundary `2^32` signals that no exponent in range matches.
    pub fn brute_force(decrypted: &G1Elem) -> (r: Scalar)
        requires
            decrypted.wf(),
        ensures
            r@ == if decrypted@ < 0x1_0000_0000 {
                decrypted@
            } else {
                0x1_0000_0000int
            },
            r.wf(),
    {
        let g = G1Elem::generator();
        let mut cur = G1Elem::identity();
        let mut i: u64 = 0;
        while i < 0x1_0000_0000
            invariant
                0 <= i <= 0x1_0000_0000,
                g@ == 1,
                g.wf(),
                cur.wf(),
                decrypted.wf(),
                cur@ == i as int,
                decrypted@ >= i as int,
            decreases 0x1_0000_0000 - i,
        {
            if cur.equals(decrypted) {
                return Scalar::from_u64(i);
            }
            proof {
                lemma_small_mod((i + 1) as nat, fr_order() as nat);
            }
            i = i + 1;
            cur = cur.add(&g);
        }
        Scalar::from_u64(0x1_0000_0000)
    }

    /// Decrypt to a point, then search for the small exponent.
    pub fn decrypt(cipher: &Cipher, key: &Scalar) -> (r: Scalar)
        requires
            cipher.wf(),
            key.wf(),
        ensures
            r@ == decrypted_scalar(cipher.c0v(), cipher.c1v(), key@),
            r.wf(),
    {
        let decrypted_exp = Self::decrypt_exp(cipher, key);
        Self::brute_force(&decrypted_exp)
    }
}

/// Law: decrypting an encryption made under the matching key returns the
/// plaintext point. For every secret key `sk`, plaintext `m` and nonce `r`,
/// the point decrypted from `encrypt(m, sk·g; r)` with `sk` is `m·g`.
pub proof fn lemma_decrypt_point_of_encryption(sk: int, m: int, r: int, c: Cipher)
    requires
        0 <= sk < fr_order(),
        0 <= m < fr_order(),
        is_encryption(m, sk, r, c),
    ensures
        decrypt_point(c.c0v(), c.c1v(), sk) == m,
{
    let q = fr_order();
    lemma_mul_is_commutative(r, sk);
    lemma_sub_mod_noop_right((m + r * sk) % q, sk * r, q);
    lemma_sub_mod_noop(m + r * sk, sk * r, q);
    lemma_small_mod(m as nat, q as nat);
}

/// Law: for plaintexts below `2^32`, brute-force decryption of an encryption
/// under the matching key returns the plaintext itself.
pub proof fn lemma_decrypt_of_encryption(sk: int, m: int, r: int, c: Cipher)
    requires
        0 <= sk < fr_order(),
        0 <= m < 0x1_0000_0000,
        is_encryption(m, sk, r, c),
    ensures
        decrypted_scalar(c.c0v(), c.c1v(), sk) == m,
{
    lemma_decrypt_point_of_encryption(sk, m, r, c);
}

/// Law: the component-wise sum of two encryptions under one key is itself an
/// encryption, of the sum of the plaintexts, under the sum of the nonces; in
/// particular its first component is `(r1 + r2)·g` and it decrypts to the
/// point `(m1 + m2)·g`.
pub proof fn lemma_homomorphism(
    sk: int,
    m1: int,
    r1: int,
    m2: int,
    r2: int,
    c1: Cipher,
    c2: Cipher,
    sum: Cipher,
)
    requires
        0 <= sk < fr_order(),
        0 <= m1 < fr_order(),
        0 <= m2 < fr_order(),
        is_encryption(m1, sk, r1, c1),
        is_encryption(m2, sk, r2, c2),
        sum.c0v() == (c1.c0v() + c2.c0v()) % fr_order(),
        sum.c1v() == (c1.c1v() + c2.c1v()) % fr_order(),
    ensures
        is_encryption((m1 + m2) % fr_order(), sk, (r1 + r2) % fr_order(), sum),
        decrypt_point(sum.c0v(), sum.c1v(), sk) == (m1 + m2) % fr_order(),
{
    let q = fr_order();
    lemma_mod_bound(r1 + r2, q);
    lemma_mod_bound(m1 + m2, q);
    lemma_add_mod_noop(m1 + r1 * sk, m2 + r2 * sk, q);
    assert(sum.c1v() == (m1 + r1 * sk + m2 + r2 * sk) % q);
    lemma_mul_is_distributive_add(sk, r1, r2);
    assert((r1 + r2) * sk == r1 * sk + r2 * sk) by (nonlinear_arith);
    lemma_mul_mod_noop_left(r1 + r2, sk, q);
    lemma_add_mod_noop_right((m1 + m2) % q, ((r1 + r2) % q) * sk, q);
    lemma_add_mod_noop_right((m1 + m2) % q, (r1 + r2) * sk, q);
    lemma_add_mod_noop(m1 + m2, (r1 + r2) * sk, q);
    assert(((m1 + m2) % q + ((r1 + r2) % q) * sk) % q == (m1 + m2 + (r1 + r2) * sk) % q);
    lemma_decrypt_point_of_encryption(sk, (m1 + m2) % q, (r1 + r2) % q, sum);
}

/// Law: summing three encryptions under one key component-wise yields an
/// encryption of the sum of the plaintexts under the sum of the nonces, and it
/// decrypts to the point carrying that sum.
pub proof fn lemma_homomorphism_three(
    sk: int,
    m1: int,
    r1: int,
    m2: int,
    r2: int,
    m3: int,
    r3: int,
    c1: Cipher,
    c2: Cipher,
    c3: Cipher,
    s12: Cipher,
    s123: Cipher,
)
    requires
        0 <= sk < fr_order(),
        0 <= m1 < fr_order(),
        0 <= m2 < fr_order(),
        0 <= m3 < fr_order(),
        is_encryption(m1, sk, r1, c1),
        is_encryption(m2, sk, r2, c2),
        is_encryption(m3, sk, r3, c3),
        s12.c0v() == (c1.c0v() + c2.c0v()) % fr_order(),
        s12.c1v() == (c1.c1v() + c2.c1v()) % fr_order(),
        s123.c0v() == (s12.c0v() + c3.c0v()) % fr_order(),
        s123.c1v() == (s12.c1v() + c3.c1v()) % fr_order(),
    ensures
        is_encryption((m1 + m2 + m3) % fr_order(), sk, (r1 + r2 + r3) % fr_order(), s123),
        decrypt_point(s123.c0v(), s123.c1v(), sk) == (m1 + m2 + m3) % fr_order(),
{
    let q = fr_order();
    lemma_mod_bound(m1 + m2, q);
    lemma_homomorphism(sk, m1, r1, m2, r2, c1, c2, s12);
    lemma_homomorphism(sk, (m1 + m2) % q, (r1 + r2) % q, m3, r3, s12, c3, s123);
    lemma_small_mod(m3 as nat, q as nat);
    lemma_small_mod(r3 as nat, q as nat);
    lemma_add_mod_noop(m1 + m2, m3, q);
    lemma_add_mod_noop(r1 + r2, r3, q);
    lemma_decrypt_point_of_encryption(sk, (m1 + m2 + m3) % q, (r1 + r2 + r3) % q, s123);
}

/// The sum of a sequence of values modulo the field order.
pub open spec fn sum_mod(s: Seq<int>) -> int
    decreases s.len(),
{
    if s.len() == 0 {
        0
    } else {
        (sum_mod(s.drop_last()) + s[s.len() - 1]) % fr_order()
    }
}

pub proof fn lemma_sum_mod_bound(s: Seq<int>)
    ensures
        0 <= sum_mod(s) < fr_order(),
{
    if s.len() > 0 {
        lemma_mod_bound(sum_mod(s.drop_last()) + s[s.len() - 1], fr_order());
    }
}

/// Law: folding any number of encryptions under one key with component-wise
/// addition yields an encryption of the sum of the plaintexts under the sum of
/// the nonces; in particular the fold's first component carries the nonce sum
/// and the fold decrypts to the point carrying the plaintext sum. `sums[i]` is
/// the running fold of the first `i + 1` ciphertexts.
pub proof fn lemma_homomorphism_fold(
    sk: int,
    ms: Seq<int>,
    rs: Seq<int>,
    cs: Seq<Cipher>,
    sums: Seq<Cipher>,
)
    requires
        0 <= sk < fr_order(),
        cs.len() >= 1,
        ms.len() == cs.len(),
        rs.len() == cs.len(),
        sums.len() == cs.len(),
        forall|i: int| 0 <= i < cs.len() ==> 0 <= #[trigger] ms[i] < fr_order(),
        forall|i: int| 0 <= i < cs.len() ==> is_encryption(ms[i], sk, rs[i], #[trigger] cs[i]),
        sums[0] == cs[0],
        forall|i: int|
            1 <= i < cs.len() ==> (#[trigger] sums[i]).c0v() == (sums[i - 1].c0v() + cs[i].c0v())
                % fr_order() && sums[i].c1v() == (sums[i - 1].c1v() + cs[i].c1v()) % fr_order(),
    ensures
        is_encryption(sum_mod(ms), sk, sum_mod(rs), sums[cs.len() - 1]),
        decrypt_point(sums[cs.len() - 1].c0v(), sums[cs.len() - 1].c1v(), sk) == sum_mod(ms),
    decreases cs.len(),
{
    let q = fr_order();
    let k = cs.len() as int;
    if k == 1 {
        assert(ms.drop_last().len() == 0 && rs.drop_last().len() == 0);
        assert(sum_mod(ms.drop_last()) == 0);
        assert(sum_mod(rs.drop_last()) == 0);
        assert(sum_mod(ms) == (0 + ms[0]) % q);
        assert(sum_mod(rs) == (0 + rs[0]) % q);
        lemma_small_mod(ms[0] as nat, q as nat);
        lemma_small_mod(rs[0] as nat, q as nat);
        lemma_decrypt_point_of_encryption(sk, ms[0], rs[0], sums[0]);
    } else {
        let mp = ms.drop_last();
        let rp = rs.drop_last();
        let cp = cs.drop_last();
        let sp = sums.drop_last();
        assert(forall|i: int| 0 <= i < cp.len() ==> 0 <= #[trigger] mp[i] < q);
        assert(forall|i: int| 0 <= i < cp.len() ==> is_encryption(mp[i], sk, rp[i], #[trigger] cp[i]));
        assert(forall|i: int|
            1 <= i < cp.len() ==> (#[trigger] sp[i]).c0v() == (sp[i - 1].c0v() + cp[i].c0v()) % q
                && sp[i].c1v() == (sp[i - 1].c1v() + cp[i].c1v()) % q);
        lemma_homomorphism_fold(sk, mp, rp, cp, sp);
        lemma_sum_mod_bound(mp);
        lemma_sum_mod_bound(rp);
        lemma_homomorphism(
            sk,
            sum_mod(mp),
            sum_mod(rp),
            ms[k - 1],
            rs[k - 1],
            sums[k - 2],
            cs[k - 1],
            sums[k - 1],
        );
        assert(sum_mod(ms) == (sum_mod(mp) + ms[k - 1]) % q);
        assert(sum_mod(rs) == (sum_mod(rp) + rs[k - 1]) % q);
        lemma_decrypt_point_of_encryption(sk, sum_mod(ms), sum_mod(rs), sums[k - 1]);
    }
}

} // verus!
