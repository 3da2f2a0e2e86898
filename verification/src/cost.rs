//! Costs in US dollars, held as the bit patterns of IEEE 754 doubles.
use vstd::prelude::*;

verus! {

/// A cost that counts: a finite number that is not below zero. The pattern with nothing but the
/// sign bit is the negative zero, which equals zero.
pub open spec fn is_valid_cost(bits: u64) -> bool {
    bits < 0x7ff0_0000_0000_0000 || bits == 0x8000_0000_0000_0000
}

/// A finite number above zero.
pub open spec fn is_positive_cost(bits: u64) -> bool {
    0 < bits < 0x7ff0_0000_0000_0000
}

/// A cost, where it is valid.
pub open spec fn valid(cost: Option<u64>) -> Option<u64> {
    match cost {
        Some(bits) if is_valid_cost(bits) => Some(bits),
        _ => None,
    }
}

/// Keeps a cost that is finite and not negative.
pub fn valid_cost(cost: Option<u64>) -> (kept: Option<u64>)
    ensures
        kept == valid(cost),
{
    match cost {
        Some(bits) => if bits < 0x7ff0_0000_0000_0000 || bits == 0x8000_0000_0000_0000 {
            Some(bits)
        } else {
            None
        },
        None => None,
    }
}

/// The costs that are kept are those of IEEE 754: a double is its sign bit, eleven bits of
/// exponent and 52 bits of fraction. An exponent of nothing but ones is no finite number, and
/// among the patterns with the sign bit only the zero is not below zero. A cost that is kept is
/// kept as it is.
pub proof fn lemma_kept_costs(bits: u64)
    ensures
        ({
            let negative = bits / 0x8000_0000_0000_0000 == 1;
            let exponent = bits / 0x10_0000_0000_0000 % 0x800;
            let fraction = bits % 0x10_0000_0000_0000;
            let finite = exponent != 0x7ff;
            let zero = exponent == 0 && fraction == 0;
            &&& valid(Some(bits)) == (if finite && (!negative || zero) {
                Some(bits)
            } else {
                None
            })
            &&& is_positive_cost(bits) <==> finite && !negative && !zero
        }),
        valid(None) is None,
{
}

} // verus!
