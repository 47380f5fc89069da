use vstd::prelude::*;

pub mod crypto;
pub mod errors;
pub mod expression;
pub mod key;
pub mod oracles;
pub mod policy;
pub mod satisfy;
pub mod script_expr;
pub mod segwitv0;
pub mod sortedmulti;

verus! {

/// Length in bytes of Bitcoin's variable-length integer encoding of `n`.
pub open spec fn spec_varint_len(n: nat) -> nat {
    if n < 0xFD { 1 } else if n <= 0xFFFF { 3 } else if n <= 0xFFFF_FFFF { 5 } else { 9 }
}

/// Byte length of the variable-length integer encoding used to prefix
/// scripts and witness stacks with their counts.
pub fn varint_len(n: usize) -> (r: usize)
    ensures
        r == spec_varint_len(n as nat),
{
    if n < 0xFD { 1 } else if n <= 0xFFFF { 3 } else if n <= 0xFFFF_FFFF { 5 } else { 9 }
}

} // verus!
