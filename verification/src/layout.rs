//! Layout arithmetic shared by schema validation and the store's packing:
//! rounding offsets up to alignment boundaries and deciding whether a
//! declared (size, align) pair is legal.
use vstd::prelude::*;

verus! {

/// A positive number that is `1` or keeps halving evenly down to `1`.
pub open spec fn is_pow2(a: nat) -> bool
    decreases a,
{
    if a == 0 {
        false
    } else if a == 1 {
        true
    } else {
        a % 2 == 0 && is_pow2(a / 2)
    }
}

/// The smallest multiple of `a` that is at least `x`.
pub open spec fn spec_round_up(x: nat, a: nat) -> nat
    recommends
        a > 0,
{
    (((x + a - 1) / (a as int)) * (a as int)) as nat
}

pub proof fn lemma_round_up_props(x: nat, a: nat)
    requires
        a > 0,
    ensures
        spec_round_up(x, a) >= x,
        spec_round_up(x, a) < x + a,
        spec_round_up(x, a) % a == 0,
        x % a == 0 ==> spec_round_up(x, a) == x,
{
    let q = (x + a - 1) / (a as int);
    assert(q * a >= x && q * a < x + a && (q * a) % (a as int) == 0 && (x % a == 0 ==> q * a
        == x)) by (nonlinear_arith)
        requires
            a > 0,
            q == (x + a - 1) / (a as int),
    ;
}

/// Rounds `x` up to the next multiple of the alignment `a`.
pub fn round_up(x: usize, a: usize) -> (r: usize)
    requires
        a > 0,
        x + a - 1 <= usize::MAX,
    ensures
        r == spec_round_up(x as nat, a as nat),
        r >= x,
        r < x + a,
        r % a == 0,
{
    proof {
        lemma_round_up_props(x as nat, a as nat);
    }
    ((a - 1 + x) / a) * a
}

/// A legal (size, align) pair for one component instance: the alignment is a
/// power of two, the size is positive, fits an allocation, and is an exact
/// multiple of the alignment.
pub open spec fn valid_layout_pair(size: nat, align: nat) -> bool {
    &&& is_pow2(align)
    &&& size > 0
    &&& size % align == 0
    &&& size <= isize::MAX as nat
}

/// Decides `is_pow2` by halving until the value reaches one.
pub fn check_pow2(a: usize) -> (r: bool)
    ensures
        r == is_pow2(a as nat),
{
    if a == 0 {
        return false;
    }
    let mut v: usize = a;
    while v > 1
        invariant
            v >= 1,
            is_pow2(a as nat) == is_pow2(v as nat),
        decreases v,
    {
        if v % 2 == 1 {
            return false;
        }
        v = v / 2;
    }
    true
}

/// Decides `valid_layout_pair`.
pub fn check_layout_pair(size: usize, align: usize) -> (r: bool)
    ensures
        r == valid_layout_pair(size as nat, align as nat),
{
    if !check_pow2(align) {
        return false;
    }
    if size == 0 {
        return false;
    }
    if size % align != 0 {
        return false;
    }
    size <= (isize::MAX as usize)
}

} // verus!
