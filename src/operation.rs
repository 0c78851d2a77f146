use vstd::prelude::*;
use vstd::arithmetic::power2::{pow2, lemma2_to64_rest, lemma_pow2_strictly_increases};
use vstd::bits::{lemma_u64_shl_is_mul, lemma_u64_pow2_no_overflow};

verus! {

/// An algebraic operation under measurement.
#[derive(Debug, Clone, Copy, PartialEq, Eq, Structural)]
pub enum Operation {
    /// Addition of two scalar-field elements.
    FieldAdd,
    /// Subtraction of two scalar-field elements.
    FieldSub,
    /// Multiplication of two scalar-field elements.
    FieldMul,
    /// Squaring of one scalar-field element.
    FieldSquare,
    /// Inversion of one scalar-field element.
    FieldInv,
    /// Addition of two projective points.
    GroupAdd,
    /// Subtraction of two projective points.
    GroupSub,
    /// Doubling of one projective point.
    GroupDouble,
    /// Multiplication of a projective point by a scalar.
    GroupMul,
    /// Pairing of one affine point from each of two groups.
    Pairing,
    /// Multi-scalar multiplication of `size` scalars with `size` points.
    Msm,
    /// Forward number-theoretic transform of `size` field elements, over a
    /// field whose largest transform domain holds `2^max_log_domain`
    /// elements.
    Ntt { max_log_domain: u32 },
}

/// Whether a transform domain of `2^max_log_domain` elements holds `size`
/// elements.
pub open spec fn domain_holds(max_log_domain: nat, size: nat) -> bool {
    size <= pow2(max_log_domain)
}

/// Checks whether a transform domain of `2^max_log_domain` elements holds
/// `size` elements.
pub fn fits_domain(max_log_domain: u32, size: u64) -> (r: bool)
    ensures
        r == domain_holds(max_log_domain as nat, size as nat),
{
    if max_log_domain >= 64 {
        proof {
            lemma2_to64_rest();
            if max_log_domain > 64 {
                lemma_pow2_strictly_increases(64, max_log_domain as nat);
            }
        }
        return true;
    }
    proof {
        lemma_u64_pow2_no_overflow(max_log_domain as nat);
        lemma_u64_shl_is_mul(1u64, max_log_domain as u64);
    }
    size <= (1u64 << (max_log_domain as u64))
}

impl Operation {
    /// Operations whose cost depends on an input size and which are swept
    /// over sizes.
    pub open spec fn spec_is_sized(self) -> bool {
        self is Msm || self is Ntt
    }

    /// Number of random operands drawn for an operation without a size
    /// parameter: one representative input pair for binary operations, one
    /// element for unary ones.
    pub open spec fn spec_operand_count(self) -> u64 {
        match self {
            Operation::FieldSquare | Operation::FieldInv | Operation::GroupDouble => 1,
            _ => 2,
        }
    }

    /// Whether an input of `size` elements can be constructed for this
    /// operation: only a transform needs a domain large enough.
    pub open spec fn spec_supports_size(self, size: u64) -> bool {
        match self {
            Operation::Ntt { max_log_domain } => domain_holds(max_log_domain as nat, size as nat),
            _ => true,
        }
    }

    pub fn is_sized(&self) -> (r: bool)
        ensures
            r == self.spec_is_sized(),
    {
        match self {
            Operation::Msm | Operation::Ntt { .. } => true,
            _ => false,
        }
    }

    pub fn operand_count(&self) -> (r: u64)
        ensures
            r == self.spec_operand_count(),
    {
        match self {
            Operation::FieldSquare | Operation::FieldInv | Operation::GroupDouble => 1,
            _ => 2,
        }
    }

    pub fn supports_size(&self, size: u64) -> (r: bool)
        ensures
            r == self.spec_supports_size(size),
    {
        match self {
            Operation::Ntt { max_log_domain } => fits_domain(*max_log_domain, size),
            _ => true,
        }
    }
}

} // verus!
