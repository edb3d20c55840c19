//! A byte-string comparison whose running time does not depend on where the
//! operands differ.

use vstd::prelude::*;

verus! {

/// The bitwise OR of `a[i] ^ b[i]` over the first `n` positions.
pub open spec fn difference_bits(a: Seq<u8>, b: Seq<u8>, n: nat) -> u8
    decreases n,
{
    if n == 0 {
        0u8
    } else {
        difference_bits(a, b, (n - 1) as nat) | (a[n - 1] ^ b[n - 1])
    }
}

/// The accumulated difference is zero exactly when the two strings agree on
/// every one of the first `n` positions.
pub proof fn lemma_difference_bits_zero(a: Seq<u8>, b: Seq<u8>, n: nat)
    ensures
        difference_bits(a, b, n) == 0 <==> forall|i: int| 0 <= i < n ==> a[i] == b[i],
    decreases n,
{
    if n > 0 {
        let rest = difference_bits(a, b, (n - 1) as nat);
        let x = a[n - 1];
        let y = b[n - 1];
        lemma_difference_bits_zero(a, b, (n - 1) as nat);
        assert((rest | (x ^ y)) == 0u8 <==> (rest == 0u8 && x == y)) by (bit_vector);
        if difference_bits(a, b, n) == 0 {
            assert forall|i: int| 0 <= i < n implies a[i] == b[i] by {
                if i < n - 1 {
                } else {
                    assert(i == n - 1);
                }
            }
        }
    }
}

/// Compares two byte strings of one length without leaving early.
///
/// Every position is visited whatever the bytes hold. The result is zero
/// exactly when the strings are equal; otherwise it holds every bit in which
/// some pair of bytes differs.
pub fn cmpct(a: &[u8], b: &[u8]) -> (res: u8)
    requires
        a@.len() == b@.len(),
    ensures
        res == difference_bits(a@, b@, a@.len()),
        res == 0 <==> a@ == b@,
{
    let mut res: u8 = 0;
    let ghost mut seen: nat = 0;
    let n: usize = a.len();
    let mut idx: usize = 0;
    while idx < n
        invariant
            n == a@.len(),
            n == b@.len(),
            idx <= n,
            seen == idx,
            res == difference_bits(a@, b@, seen),
        decreases n - idx,
    {
        res |= a[idx] ^ b[idx];
        idx += 1;
        proof {
            seen = seen + 1;
        }
    }
    proof {
        lemma_difference_bits_zero(a@, b@, seen);
        if res == 0 {
            assert(a@ =~= b@);
        }
    }
    res
}

} // verus!
