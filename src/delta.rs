//! Pending delegation changes as recorded in a delegator's cell, and their
//! reading into plain values.

use vstd::prelude::*;

use crate::scripts::Delegate;

verus! {

/// A pending delegation change as its fields are stored: little-endian
/// amounts and epoch, and a flag byte.
#[derive(Clone, Copy, Debug, PartialEq, Eq)]
pub struct DelegateInfoDelta {
    pub staker: [u8; 20],
    pub total_amount: [u8; 16],
    pub is_increase: u8,
    pub amount: [u8; 16],
    pub inauguration_epoch: [u8; 8],
}

/// A pending delegation change: the staker delegated to, the total amount,
/// whether the change increases it, by how much, and from which epoch.
#[derive(Clone, Copy, Debug, PartialEq, Eq)]
pub struct DelegateItem {
    pub staker: [u8; 20],
    pub total_amount: u128,
    pub is_increase: bool,
    pub amount: u128,
    pub inauguration_epoch: u64,
}

/// The number whose little-endian bytes are `s`.
pub open spec fn le_value(s: Seq<u8>) -> nat
    decreases s.len(),
{
    if s.len() == 0 {
        0
    } else {
        s[0] as nat + 256 * le_value(s.drop_first())
    }
}

/// 256 to the power `k`.
pub open spec fn pow256(k: nat) -> nat
    decreases k,
{
    if k == 0 {
        1
    } else {
        256 * pow256((k - 1) as nat)
    }
}

proof fn lemma_pow256_mono(a: nat, b: nat)
    requires
        a <= b,
    ensures
        pow256(a) <= pow256(b),
    decreases b - a,
{
    if a < b {
        lemma_pow256_mono(a, (b - 1) as nat);
    }
}

/// Reads an unsigned little-endian number of at most 16 bytes.
pub fn read_le(b: &[u8]) -> (r: u128)
    requires
        b@.len() <= 16,
    ensures
        r == le_value(b@),
{
    let n = b.len();
    let mut acc: u128 = 0;
    let mut i: usize = n;
    proof {
        reveal_with_fuel(pow256, 17);
        assert(pow256(16) == 0x1_0000_0000_0000_0000_0000_0000_0000_0000);
    }
    while i > 0
        invariant
            n == b@.len() <= 16,
            i <= n,
            acc == le_value(b@.subrange(i as int, n as int)),
            acc < pow256((n - i) as nat),
            pow256(16) == 0x1_0000_0000_0000_0000_0000_0000_0000_0000,
        decreases i,
    {
        let ghost p = pow256((n - i) as nat);
        proof {
            lemma_pow256_mono((n - i + 1) as nat, 16);
            assert(pow256((n - i + 1) as nat) == 256 * p);
            assert(acc * 256 + 255 < 256 * p) by (nonlinear_arith)
                requires
                    acc < p,
            ;
            let s = b@.subrange(i - 1, n as int);
            assert(s.drop_first() =~= b@.subrange(i as int, n as int));
        }
        acc = acc * 256 + b[i - 1] as u128;
        i = i - 1;
    }
    assert(b@.subrange(0, n as int) =~= b@);
    acc
}

impl Delegate {
    /// The plain values of a stored pending change; the flag is set when its
    /// byte is 1.
    pub fn item(delegate: &DelegateInfoDelta) -> (r: DelegateItem)
        ensures
            r.staker == delegate.staker,
            r.total_amount == le_value(delegate.total_amount@),
            r.is_increase == (delegate.is_increase == 1),
            r.amount == le_value(delegate.amount@),
            r.inauguration_epoch == le_value(delegate.inauguration_epoch@),
    {
        let epoch = read_le(delegate.inauguration_epoch.as_slice());
        proof {
            reveal_with_fuel(pow256, 9);
            lemma_le_value_bound(delegate.inauguration_epoch@);
        }
        DelegateItem {
            staker: delegate.staker,
            total_amount: read_le(delegate.total_amount.as_slice()),
            is_increase: delegate.is_increase == 1,
            amount: read_le(delegate.amount.as_slice()),
            inauguration_epoch: epoch as u64,
        }
    }
}

/// A little-endian number is below 256 to the power of its length.
pub proof fn lemma_le_value_bound(s: Seq<u8>)
    ensures
        le_value(s) < pow256(s.len()),
    decreases s.len(),
{
    if s.len() > 0 {
        lemma_le_value_bound(s.drop_first());
        let v = le_value(s.drop_first());
        let p = pow256(s.drop_first().len());
        let x = s[0] as nat;
        assert(x + 256 * v < 256 * p) by (nonlinear_arith)
            requires
                v < p,
                x < 256,
        ;
    }
}

} // verus!
