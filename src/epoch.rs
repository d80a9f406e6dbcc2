//! Folding a batch of pending delegation changes into per-staker groups for
//! one tree update: groups come in the order in which their stakers first
//! appear, and each group keeps its entries in batch order. Nothing here
//! stages a tree mutation: the proofs are taken as produced from the last
//! confirmed root, so a failed submission leaves no local state to undo.

use vstd::prelude::*;

use crate::decode::{info_view, InfoView};
use crate::scripts::same_bytes;
use crate::witness::{DelegateInfo, StakeGroupInfo};

verus! {

/// One delegator's new amount with one staker.
#[derive(Clone, Copy, Debug, PartialEq, Eq)]
pub struct StakeDelta {
    pub staker: [u8; 20],
    pub delegator_addr: [u8; 20],
    pub amount: u128,
}

/// The membership proofs of one staker's delegations before and after the
/// update, as the tree storage produced them.
#[derive(Clone, Debug, PartialEq, Eq)]
pub struct EpochProof {
    pub old_epoch_proof: Vec<u8>,
    pub new_epoch_proof: Vec<u8>,
}

/// Why a batch could not be grouped.
#[derive(Clone, Copy, Debug, PartialEq, Eq, Structural)]
pub enum EpochError {
    /// The number of proofs differs from the number of stakers touched.
    ProofCountMismatch,
}

/// The distinct values of `s` in the order of their first appearance.
pub open spec fn first_seen(s: Seq<Seq<u8>>) -> Seq<Seq<u8>>
    decreases s.len(),
{
    if s.len() == 0 {
        seq![]
    } else {
        let p = first_seen(s.drop_last());
        if p.contains(s.last()) {
            p
        } else {
            p.push(s.last())
        }
    }
}

/// The stakers of a batch, entry by entry.
pub open spec fn staker_seq(ds: Seq<StakeDelta>) -> Seq<Seq<u8>> {
    ds.map_values(|d: StakeDelta| d.staker@)
}

/// The stakers touched by a batch, in the order of their first appearance.
pub open spec fn touched_stakers(ds: Seq<StakeDelta>) -> Seq<Seq<u8>> {
    first_seen(staker_seq(ds))
}

/// The entries of a batch for one staker, in batch order.
pub open spec fn entries(ds: Seq<StakeDelta>, staker: Seq<u8>) -> Seq<InfoView>
    decreases ds.len(),
{
    if ds.len() == 0 {
        seq![]
    } else {
        let p = entries(ds.drop_last(), staker);
        if ds.last().staker@ == staker {
            p.push((ds.last().delegator_addr@, ds.last().amount as nat))
        } else {
            p
        }
    }
}

/// The stakers touched by `deltas`, each once, in the order of their first
/// appearance.
pub fn touched(deltas: &Vec<StakeDelta>) -> (r: Vec<[u8; 20]>)
    ensures
        r@.map_values(|s: [u8; 20]| s@) == touched_stakers(deltas@),
{
    let ghost ds = deltas@;
    let mut out: Vec<[u8; 20]> = Vec::new();
    let mut i: usize = 0;
    while i < deltas.len()
        invariant
            ds == deltas@,
            i <= ds.len(),
            out@.map_values(|s: [u8; 20]| s@) == first_seen(staker_seq(ds.take(i as int))),
        decreases ds.len() - i,
    {
        let ghost pre = staker_seq(ds.take(i as int));
        let ghost next = staker_seq(ds.take(i + 1));
        proof {
            assert(next.drop_last() =~= pre);
            assert(next.last() == ds[i as int].staker@);
        }
        let mut seen = false;
        let mut j: usize = 0;
        while j < out.len()
            invariant
                0 <= j <= out@.len(),
                i < ds.len(),
                ds == deltas@,
                seen ==> out@.map_values(|s: [u8; 20]| s@).contains(ds[i as int].staker@),
                !seen ==> forall|k: int| 0 <= k < j ==> out@[k]@ != ds[i as int].staker@,
            decreases out@.len() - j,
        {
            if same_bytes(out[j].as_slice(), deltas[i].staker.as_slice()) {
                seen = true;
                assert(out@.map_values(|s: [u8; 20]| s@)[j as int] == ds[i as int].staker@);
            }
            j = j + 1;
        }
        if !seen {
            assert(!out@.map_values(|s: [u8; 20]| s@).contains(ds[i as int].staker@));
            out.push(deltas[i].staker);
            assert(out@.map_values(|s: [u8; 20]| s@) =~= first_seen(pre).push(ds[i as int].staker@));
        }
        i = i + 1;
    }
    assert(ds.take(ds.len() as int) =~= ds);
    out
}

/// The entries of `deltas` for `staker`, in batch order.
fn entries_of(deltas: &Vec<StakeDelta>, staker: &[u8; 20]) -> (r: Vec<DelegateInfo>)
    ensures
        r@.map_values(|d: DelegateInfo| info_view(d)) == entries(deltas@, staker@),
{
    let ghost ds = deltas@;
    let mut out: Vec<DelegateInfo> = Vec::new();
    let mut i: usize = 0;
    while i < deltas.len()
        invariant
            ds == deltas@,
            i <= ds.len(),
            out@.map_values(|d: DelegateInfo| info_view(d)) == entries(ds.take(i as int), staker@),
        decreases ds.len() - i,
    {
        assert(ds.take(i + 1).drop_last() =~= ds.take(i as int));
        assert(ds.take(i + 1).last() == ds[i as int]);
        if same_bytes(deltas[i].staker.as_slice(), staker.as_slice()) {
            out.push(DelegateInfo { delegator_addr: deltas[i].delegator_addr, amount: deltas[i].amount });
            assert(out@.map_values(|d: DelegateInfo| info_view(d)) =~= entries(
                ds.take(i as int),
                staker@,
            ).push((ds[i as int].delegator_addr@, ds[i as int].amount as nat)));
        }
        i = i + 1;
    }
    assert(ds.take(ds.len() as int) =~= ds);
    out
}

/// The groups of one tree update: one per staker touched by `deltas`, in the
/// order of first appearance, each with its entries in batch order and the
/// proofs at the same position of `proofs`.
pub fn group_deltas(deltas: &Vec<StakeDelta>, proofs: Vec<EpochProof>) -> (r: Result<
    Vec<StakeGroupInfo>,
    EpochError,
>)
    ensures
        proofs@.len() != touched_stakers(deltas@).len() ==> r == Err::<
            Vec<StakeGroupInfo>,
            EpochError,
        >(EpochError::ProofCountMismatch),
        proofs@.len() == touched_stakers(deltas@).len() ==> (r matches Ok(gs) && gs@.len()
            == proofs@.len() && forall|i: int|
            0 <= i < gs@.len() ==> {
                &&& (#[trigger] gs@[i]).staker@ == touched_stakers(deltas@)[i]
                &&& gs@[i].delegate_infos@.map_values(|d: DelegateInfo| info_view(d)) == entries(
                    deltas@,
                    touched_stakers(deltas@)[i],
                )
                &&& gs@[i].delegate_old_epoch_proof@ == proofs@[i].old_epoch_proof@
                &&& gs@[i].delegate_new_epoch_proof@ == proofs@[i].new_epoch_proof@
            }),
{
    let stakers = touched(deltas);
    let ghost ts = touched_stakers(deltas@);
    let ghost ps = proofs@;
    assert(stakers@.map_values(|s: [u8; 20]| s@).len() == stakers@.len());
    if proofs.len() != stakers.len() {
        return Err(EpochError::ProofCountMismatch);
    }
    let mut proofs = proofs;
    let mut groups: Vec<StakeGroupInfo> = Vec::new();
    let mut i: usize = 0;
    while i < stakers.len()
        invariant
            stakers@.map_values(|s: [u8; 20]| s@) == ts,
            ts == touched_stakers(deltas@),
            ps.len() == stakers@.len(),
            i <= stakers@.len(),
            proofs@ == ps.subrange(i as int, ps.len() as int),
            groups@.len() == i,
            forall|k: int|
                0 <= k < i ==> {
                    &&& (#[trigger] groups@[k]).staker@ == ts[k]
                    &&& groups@[k].delegate_infos@.map_values(|d: DelegateInfo| info_view(d))
                        == entries(deltas@, ts[k])
                    &&& groups@[k].delegate_old_epoch_proof@ == ps[k].old_epoch_proof@
                    &&& groups@[k].delegate_new_epoch_proof@ == ps[k].new_epoch_proof@
                },
        decreases stakers@.len() - i,
    {
        let p = proofs.remove(0);
        assert(proofs@ =~= ps.subrange(i + 1, ps.len() as int));
        assert(stakers@[i as int]@ == ts[i as int]);
        let infos = entries_of(deltas, &stakers[i]);
        groups.push(
            StakeGroupInfo {
                staker: stakers[i],
                delegate_old_epoch_proof: p.old_epoch_proof,
                delegate_new_epoch_proof: p.new_epoch_proof,
                delegate_infos: infos,
            },
        );
        i = i + 1;
    }
    Ok(groups)
}

proof fn lemma_entries_agree(ds1: Seq<StakeDelta>, ds2: Seq<StakeDelta>, s: Seq<u8>)
    requires
        ds1.len() == ds2.len(),
        forall|k: int|
            0 <= k < ds1.len() ==> ((#[trigger] ds1[k]).staker@ == s) == (ds2[k].staker@ == s),
        forall|k: int|
            0 <= k < ds1.len() && (#[trigger] ds1[k]).staker@ == s ==> ds1[k].delegator_addr@
                == ds2[k].delegator_addr@ && ds1[k].amount == ds2[k].amount,
    ensures
        entries(ds1, s) == entries(ds2, s),
    decreases ds1.len(),
{
    if ds1.len() > 0 {
        let n = ds1.len() - 1;
        assert(ds1[n] == ds1.last());
        assert(ds2[n] == ds2.last());
        assert forall|k: int| 0 <= k < n implies ds1.drop_last()[k] == ds1[k] && ds2.drop_last()[k]
            == ds2[k] by {}
        lemma_entries_agree(ds1.drop_last(), ds2.drop_last(), s);
    }
}

proof fn lemma_entries_concat(a: Seq<StakeDelta>, b: Seq<StakeDelta>, s: Seq<u8>)
    ensures
        entries(a + b, s) == entries(a, s) + entries(b, s),
    decreases b.len(),
{
    if b.len() == 0 {
        assert(a + b =~= a);
        assert(entries(a, s) + entries(b, s) =~= entries(a, s));
    } else {
        assert((a + b).drop_last() =~= a + b.drop_last());
        assert((a + b).last() == b.last());
        lemma_entries_concat(a, b.drop_last(), s);
        assert(entries(a + b, s) =~= entries(a, s) + entries(b, s));
    }
}

proof fn lemma_entries_single(d: StakeDelta, s: Seq<u8>)
    requires
        d.staker@ == s,
    ensures
        entries(seq![d], s) == seq![(d.delegator_addr@, d.amount as nat)],
{
    assert(seq![d].drop_last() =~= Seq::<StakeDelta>::empty());
    assert(entries(Seq::<StakeDelta>::empty(), s) == Seq::<InfoView>::empty());
    assert(entries(seq![d], s) =~= seq![(d.delegator_addr@, d.amount as nat)]);
}

proof fn lemma_swap_keeps_entries(ds: Seq<StakeDelta>, i: int, j: int)
    requires
        0 <= i < j < ds.len(),
        ds[i].staker@ == ds[j].staker@,
    ensures
        entries(ds.update(i, ds[j]).update(j, ds[i]), ds[i].staker@).to_multiset() =~= entries(
            ds,
            ds[i].staker@,
        ).to_multiset(),
{
    broadcast use vstd::seq_lib::lemma_multiset_commutative;
    broadcast use vstd::multiset::group_multiset_axioms;

    let t = ds[i].staker@;
    let ds2 = ds.update(i, ds[j]).update(j, ds[i]);
    let a = ds.subrange(0, i);
    let x = seq![ds[i]];
    let b = ds.subrange(i + 1, j);
    let y = seq![ds[j]];
    let c = ds.subrange(j + 1, ds.len() as int);
    assert(ds =~= a + x + b + y + c);
    assert(ds2 =~= a + y + b + x + c);
    lemma_entries_concat(a + x + b + y, c, t);
    lemma_entries_concat(a + x + b, y, t);
    lemma_entries_concat(a + x, b, t);
    lemma_entries_concat(a, x, t);
    lemma_entries_concat(a + y + b + x, c, t);
    lemma_entries_concat(a + y + b, x, t);
    lemma_entries_concat(a + y, b, t);
    lemma_entries_concat(a, y, t);
    lemma_entries_single(ds[i], t);
    lemma_entries_single(ds[j], t);
    let ea = entries(a, t);
    let eb = entries(b, t);
    let ec = entries(c, t);
    let ex = entries(x, t);
    let ey = entries(y, t);
    assert(entries(ds, t) == ea + ex + eb + ey + ec);
    assert(entries(ds2, t) == ea + ey + eb + ex + ec);
}

/// Reordering two changes of the same staker within a batch keeps the order
/// of the groups, the entries of every other staker's group, and the entries
/// of that staker's group up to their order.
pub proof fn lemma_reorder_within_group(ds: Seq<StakeDelta>, i: int, j: int, other: Seq<u8>)
    requires
        0 <= i < ds.len(),
        0 <= j < ds.len(),
        ds[i].staker@ == ds[j].staker@,
        other != ds[i].staker@,
    ensures
        touched_stakers(ds.update(i, ds[j]).update(j, ds[i])) == touched_stakers(ds),
        entries(ds.update(i, ds[j]).update(j, ds[i]), other) == entries(ds, other),
        entries(ds.update(i, ds[j]).update(j, ds[i]), ds[i].staker@).to_multiset() == entries(
            ds,
            ds[i].staker@,
        ).to_multiset(),
{
    let ds2 = ds.update(i, ds[j]).update(j, ds[i]);
    assert(staker_seq(ds2) =~= staker_seq(ds));
    assert forall|k: int| 0 <= k < ds.len() implies ds2[k] == ds[k] || (k == i || k == j) by {}
    lemma_entries_agree(ds, ds2, other);
    if i < j {
        lemma_swap_keeps_entries(ds, i, j);
    } else if j < i {
        assert(ds2 =~= ds.update(j, ds[i]).update(i, ds[j]));
        lemma_swap_keeps_entries(ds, j, i);
    } else {
        assert(ds2 =~= ds);
    }
}

} // verus!
