//! HyperLogLog registers for cardinality estimation.
//!
//! Each 64-bit hash picks a register by its top `p` bits and offers the rank of the
//! rest (one more than its leading zeros); a register keeps the highest rank offered.
//! The floating-point cardinality estimate over the registers is computed by the
//! detector outside this crate.

use vstd::prelude::*;
use vstd::std_specs::bits::u64_leading_zeros;

use crate::hashing::{hash_str, spec_xxh3_64};
use vstd::string::StringSliceAdditionalSpecFns;

verus! {

/// The precision actually used for a requested one: clamped to 4..=16.
pub open spec fn clamp_precision(precision: u8) -> u8 {
    if precision < 4 {
        4
    } else if precision > 16 {
        16
    } else {
        precision
    }
}

/// The register a hash falls in: its top `p` bits.
pub open spec fn register_index(hash: u64, p: u8) -> int {
    (hash >> (64 - p) as u64) as int
}

/// The rank a hash offers: one more than the leading zeros of the bits below the top `p`.
pub open spec fn rank(hash: u64, p: u8) -> u8 {
    (u64_leading_zeros((hash << p as u64) as u64) + 1) as u8
}

/// The registers after adding `hash`: its register keeps the higher of its value and
/// the hash's rank.
pub open spec fn added(registers: Seq<u8>, p: u8, hash: u64) -> Seq<u8> {
    let i = register_index(hash, p);
    let r = rank(hash, p);
    registers.update(i, if r > registers[i] { r } else { registers[i] })
}

/// Adding a hash twice is adding it once.
pub proof fn lemma_add_hash_idempotent(registers: Seq<u8>, p: u8, hash: u64)
    requires
        0 <= register_index(hash, p) < registers.len(),
    ensures
        added(added(registers, p, hash), p, hash) == added(registers, p, hash),
{
    assert(added(added(registers, p, hash), p, hash) =~= added(registers, p, hash));
}

/// Adding hashes in either order gives the same registers.
pub proof fn lemma_add_hash_commutes(registers: Seq<u8>, p: u8, h1: u64, h2: u64)
    requires
        0 <= register_index(h1, p) < registers.len(),
        0 <= register_index(h2, p) < registers.len(),
    ensures
        added(added(registers, p, h1), p, h2) == added(added(registers, p, h2), p, h1),
{
    assert(added(added(registers, p, h1), p, h2) =~= added(added(registers, p, h2), p, h1));
}

/// HyperLogLog registers with precision `p`: `2^p` registers.
#[derive(Clone, Debug)]
pub struct HyperLogLog {
    registers: Vec<u8>,
    p: u8,
    m: usize,
}

impl HyperLogLog {
    /// The precision in use.
    pub closed spec fn spec_p(&self) -> u8 {
        self.p
    }

    /// The register values.
    pub closed spec fn spec_registers(&self) -> Seq<u8> {
        self.registers@
    }

    /// The precision is between 4 and 16 and there are `2^p` registers.
    pub closed spec fn wf(&self) -> bool {
        &&& 4 <= self.p <= 16
        &&& self.m == self.registers@.len()
        &&& self.m as int == vstd::arithmetic::power2::pow2(self.p as nat)
    }

    /// Empty registers for the requested precision, clamped to 4..=16.
    pub fn new(precision: u8) -> (r: Self)
        ensures
            r.wf(),
            r.spec_p() == clamp_precision(precision),
            r.spec_registers().len() == vstd::arithmetic::power2::pow2(clamp_precision(precision) as nat),
            forall|i: int| 0 <= i < r.spec_registers().len() ==> #[trigger] r.spec_registers()[i] == 0,
    {
        let p: u8 = if precision < 4 {
            4
        } else if precision > 16 {
            16
        } else {
            precision
        };
        proof {
            vstd::bits::lemma_u64_pow2_no_overflow(p as nat);
            vstd::bits::lemma_u64_shl_is_mul(1, p as u64);
            vstd::arithmetic::power2::lemma_pow2_strictly_increases(p as nat, 17);
            vstd::arithmetic::power2::lemma2_to64();
        }
        let m64: u64 = 1u64 << p as u64;
        assert(m64 == vstd::arithmetic::power2::pow2(p as nat));
        assert(m64 < 131072);
        let m = m64 as usize;
        HyperLogLog { registers: vec![0u8; m], p, m }
    }

    /// Records a 64-bit hash.
    pub fn add_hash(&mut self, hash: u64)
        requires
            old(self).wf(),
        ensures
            final(self).wf(),
            final(self).spec_p() == old(self).spec_p(),
            0 <= register_index(hash, old(self).spec_p()) < old(self).spec_registers().len(),
            final(self).spec_registers() == added(old(self).spec_registers(), old(self).spec_p(), hash),
    {
        let p = self.p;
        let shift = (64 - p) as u64;
        let idx64 = hash >> shift;
        proof {
            assert(idx64 < (1u64 << p as u64)) by (bit_vector)
                requires
                    idx64 == hash >> shift,
                    shift == 64 - p,
                    4 <= p <= 16,
            ;
            vstd::bits::lemma_u64_shl_is_mul(1, p as u64);
            vstd::bits::lemma_u64_pow2_no_overflow(p as nat);
        }
        let idx = idx64 as usize;
        let w = hash << p as u64;
        let lz = w.leading_zeros();
        proof {
            vstd::std_specs::bits::axiom_u64_leading_zeros(w);
        }
        let r = (lz + 1) as u8;
        if r > self.registers[idx] {
            self.registers.set(idx, r);
        }
        proof {
            assert(self.registers@ =~= added(old(self).registers@, p, hash));
        }
    }

    /// Records a string by the XXH3 hash of its UTF-8 bytes.
    pub fn add(&mut self, value: &str)
        requires
            old(self).wf(),
        ensures
            final(self).wf(),
            final(self).spec_p() == old(self).spec_p(),
            final(self).spec_registers() == added(
                old(self).spec_registers(),
                old(self).spec_p(),
                spec_xxh3_64(value.spec_bytes()),
            ),
    {
        let hash = hash_str(value);
        self.add_hash(hash);
    }

    /// The precision in use.
    pub fn precision(&self) -> (r: u8)
        ensures
            r == self.spec_p(),
    {
        self.p
    }

    /// The register values.
    pub fn registers(&self) -> (r: &Vec<u8>)
        ensures
            r@ == self.spec_registers(),
    {
        &self.registers
    }
}

} // verus!
