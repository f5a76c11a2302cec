use vstd::prelude::*;

use crate::fr_order;
use crate::scalar::le_byte;
use crate::scalar::le_int;
use crate::scalar::Scalar;

verus! {

use vstd::arithmetic::power2::pow2;
use vstd::arithmetic::power2::lemma_pow2_adds;
use vstd::arithmetic::power2::lemma2_to64;
use vstd::arithmetic::div_mod::lemma_div_denominator;

/// The SHA-256 digest of a byte string.
pub uninterp spec fn sha256_of(bytes: Seq<u8>) -> Seq<u8>;

/// Relies on `sha2::Sha256` (through `sha2::Digest::digest`): a 32-byte digest
/// that is a function of the input bytes alone.
#[verifier::external_body]
fn sha256(bytes: &Vec<u8>) -> (r: Vec<u8>)
    ensures
        r@ == sha256_of(bytes@),
        r@.len() == 32,
{
    <sha2::Sha256 as sha2::Digest>::digest(bytes.as_slice()).to_vec()
}

/// The eight little-endian bytes of `n`.
pub open spec fn le8(n: int) -> Seq<u8> {
    Seq::new(8, |i: int| le_byte(n, i))
}

/// A byte string as the transcript absorbs it: prefixed with its length.
pub open spec fn framed(s: Seq<u8>) -> Seq<u8> {
    le8(s.len() as int) + s
}

/// The scalar that the transcript squeezes out of a byte string: its digest
/// read as a little-endian integer and reduced modulo the field order.
pub open spec fn squeeze(state: Seq<u8>) -> int {
    le_int(sha256_of(state)) % fr_order()
}

/// The eight little-endian bytes of `n`, as a vector.
pub fn u64_le_bytes(n: u64) -> (r: Vec<u8>)
    ensures
        r@ =~= le8(n as int),
{
    let mut out: Vec<u8> = Vec::new();
    let mut cur: u64 = n;
    let mut i: usize = 0;
    proof {
        lemma2_to64();
        vstd::arithmetic::div_mod::lemma_div_basics(n as int);
    }
    while i < 8
        invariant
            0 <= i <= 8,
            out@.len() == i,
            cur as int == (n as int) / (pow2((8 * i) as nat) as int),
            forall|j: int| 0 <= j < i ==> out@[j] == le_byte(n as int, j),
            pow2(8) == 256,
        decreases 8 - i,
    {
        let b: u8 = (cur % 256) as u8;
        proof {
            assert(b == le_byte(n as int, i as int));
        }
        out.push(b);
        proof {
            vstd::arithmetic::power2::lemma_pow2_pos((8 * i) as nat);
            lemma_pow2_adds((8 * i) as nat, 8);
            lemma_div_denominator(n as int, pow2((8 * i) as nat) as int, 256);
            assert((cur as int) / 256 == (n as int) / (pow2((8 * (i + 1)) as nat) as int));
        }
        cur = cur / 256;
        i = i + 1;
    }
    out
}

/// The Fiat–Shamir transcript: an append-only byte string; every absorbed item
/// is framed with its length, and challenges are squeezed by hashing the whole
/// state.
pub struct Transcript {
    data: Vec<u8>,
}

impl View for Transcript {
    type V = Seq<u8>;

    closed spec fn view(&self) -> Seq<u8> {
        self.data@
    }
}

impl Transcript {
    pub fn new() -> (r: Transcript)
        ensures
            r@ == Seq::<u8>::empty(),
    {
        Transcript { data: Vec::new() }
    }

    /// Absorb a byte string, length first.
    pub fn update(&mut self, bytes: &Vec<u8>)
        ensures
            final(self)@ == old(self)@ + framed(bytes@),
    {
        let ghost pre = self.data@;
        let mut lenb = u64_le_bytes(bytes.len() as u64);
        self.data.append(&mut lenb);
        let mut i: usize = 0;
        while i < bytes.len()
            invariant
                0 <= i <= bytes@.len(),
                self.data@ == pre + le8(bytes@.len() as int) + bytes@.subrange(0, i as int),
            decreases bytes@.len() - i,
        {
            self.data.push(bytes[i]);
            proof {
                assert(bytes@.subrange(0, i as int).push(bytes@[i as int]) =~= bytes@.subrange(
                    0,
                    i + 1,
                ));
            }
            i = i + 1;
        }
        proof {
            assert(bytes@.subrange(0, bytes@.len() as int) =~= bytes@);
            assert(pre + le8(bytes@.len() as int) + bytes@ =~= pre + framed(bytes@));
        }
    }

    /// Absorb a label and squeeze a challenge scalar out of the state. The
    /// extraction scheme, fixed for this deployment, reads one 256-bit digest
    /// as a little-endian integer and reduces it modulo the 255-bit field
    /// order (a wide reduction with no extension block).
    pub fn next_scalar(&mut self, label: &Vec<u8>) -> (r: Scalar)
        ensures
            final(self)@ == old(self)@ + framed(label@),
            r@ == squeeze(old(self)@ + framed(label@)),
            r.wf(),
    {
        self.update(label);
        let digest = sha256(&self.data);
        Scalar::from_le_bytes_mod_order(&digest)
    }
}

} // verus!
