//! Witnesses of the delegation protocol: the signature placeholder of a
//! delegator's input and the tree-update payload of a delegation tree cell.

use vstd::prelude::*;

use crate::ckb::{witness_args, witness_args_layout};
use crate::molecule::{
    encode_fixvec, encode_table, fixvec, le_bytes, lemma_part_le_table, lemma_table_len,
    push_le, table, table_len, views,
};
use crate::scripts::{bytes_of, same_bytes};

verus! {

/// One delegator's amount within a staker's group.
#[derive(Clone, Copy, Debug, PartialEq, Eq)]
pub struct DelegateInfo {
    pub delegator_addr: [u8; 20],
    pub amount: u128,
}

/// The delegations of one staker folded into one tree update: the staker,
/// membership proofs of the old and of the new epoch, and the delegators.
#[derive(Clone, Debug, PartialEq, Eq)]
pub struct StakeGroupInfo {
    pub staker: [u8; 20],
    pub delegate_old_epoch_proof: Vec<u8>,
    pub delegate_new_epoch_proof: Vec<u8>,
    pub delegate_infos: Vec<DelegateInfo>,
}

/// Why a tree-update payload could not be encoded.
#[derive(Clone, Copy, Debug, PartialEq, Eq, Structural)]
pub enum EncodingError {
    /// One group names the same delegator twice.
    DuplicateDelegator,
    /// The encoded payload does not fit in the record format.
    TooLarge,
}

/// The delegation protocol's witnesses.
pub struct DelegateWitness;

/// Encoding of one delegator entry: address, then amount.
pub open spec fn info_enc(d: DelegateInfo) -> Seq<u8> {
    table(seq![d.delegator_addr@, le_bytes(d.amount as nat, 16)])
}

/// Encoding of the delegator list of a group.
pub open spec fn infos_enc(infos: Seq<DelegateInfo>) -> Seq<u8> {
    table(infos.map_values(|d: DelegateInfo| info_enc(d)))
}

/// The fields of an encoded group, in order.
pub open spec fn group_parts(g: StakeGroupInfo) -> Seq<Seq<u8>> {
    seq![
        g.staker@,
        infos_enc(g.delegate_infos@),
        fixvec(g.delegate_old_epoch_proof@),
        fixvec(g.delegate_new_epoch_proof@),
    ]
}

/// Encoding of one group.
pub open spec fn group_enc(g: StakeGroupInfo) -> Seq<u8> {
    table(group_parts(g))
}

/// Encoding of the ordered list of groups.
pub open spec fn groups_enc(gs: Seq<StakeGroupInfo>) -> Seq<u8> {
    table(gs.map_values(|g: StakeGroupInfo| group_enc(g)))
}

/// The tree-update payload: mode 0, then the update (the list of groups).
pub open spec fn smt_witness_enc(gs: Seq<StakeGroupInfo>) -> Seq<u8> {
    table(seq![seq![0u8], table(seq![groups_enc(gs)])])
}

/// The witness that carries the payload in its input-type field.
pub open spec fn smt_witness_layout(gs: Seq<StakeGroupInfo>) -> Seq<u8> {
    witness_args_layout(None, Some(smt_witness_enc(gs)))
}

/// The payload fits in the record format.
pub open spec fn smt_witness_fits(gs: Seq<StakeGroupInfo>) -> bool {
    smt_witness_enc(gs).len() + 24 <= u32::MAX
}

/// Some delegator appears twice in the list.
pub open spec fn has_duplicate_delegator(infos: Seq<DelegateInfo>) -> bool {
    exists|i: int, j: int|
        0 <= i < j < infos.len() && infos[i].delegator_addr@ == infos[j].delegator_addr@
}

/// Some group of the list names a delegator twice.
pub open spec fn any_duplicate_delegator(gs: Seq<StakeGroupInfo>) -> bool {
    exists|k: int| 0 <= k < gs.len() && has_duplicate_delegator(#[trigger] gs[k].delegate_infos@)
}

/// The signature placeholder in the lock field: a record holding the mode.
pub open spec fn placeholder_layout(mode: u8) -> Seq<u8> {
    witness_args_layout(Some(table(seq![seq![mode]])), None)
}

/// Whether some delegator appears twice in `infos`.
pub fn find_duplicate_delegator(infos: &Vec<DelegateInfo>) -> (r: bool)
    ensures
        r == has_duplicate_delegator(infos@),
{
    let n = infos.len();
    let mut i: usize = 0;
    while i < n
        invariant
            n == infos@.len(),
            i <= n,
            forall|a: int, b: int|
                0 <= a < b < n && a < i ==> infos@[a].delegator_addr@ != infos@[b].delegator_addr@,
        decreases n - i,
    {
        let mut j: usize = i + 1;
        while j < n
            invariant
                n == infos@.len(),
                i < n,
                i < j <= n,
                forall|a: int, b: int|
                    0 <= a < b < n && a < i ==> infos@[a].delegator_addr@
                        != infos@[b].delegator_addr@,
                forall|b: int| i < b < j ==> infos@[i as int].delegator_addr@ != infos@[b].delegator_addr@,
            decreases n - j,
        {
            if same_bytes(infos[i].delegator_addr.as_slice(), infos[j].delegator_addr.as_slice()) {
                return true;
            }
            j = j + 1;
        }
        i = i + 1;
    }
    false
}

fn encode_info(d: &DelegateInfo) -> (r: Vec<u8>)
    ensures
        r@ == info_enc(*d),
{
    let mut amount: Vec<u8> = Vec::new();
    push_le(&mut amount, d.amount, 16);
    let parts: Vec<Vec<u8>> = vec![bytes_of(d.delegator_addr.as_slice()), amount];
    proof {
        crate::molecule::lemma_le_bytes_len(d.amount as nat, 16);
        assert(views(parts@) =~= seq![d.delegator_addr@, le_bytes(d.amount as nat, 16)]);
        crate::scripts::lemma_two_fields(d.delegator_addr@, le_bytes(d.amount as nat, 16));
    }
    match encode_table(&parts) {
        Some(v) => v,
        None => Vec::new(),
    }
}

fn encode_infos(infos: &Vec<DelegateInfo>) -> (r: Option<Vec<u8>>)
    ensures
        r is Some <==> infos_enc(infos@).len() <= u32::MAX,
        r matches Some(v) ==> v@ == infos_enc(infos@),
{
    let ghost ds = infos@;
    let mut parts: Vec<Vec<u8>> = Vec::new();
    let mut i: usize = 0;
    while i < infos.len()
        invariant
            ds == infos@,
            i <= ds.len(),
            views(parts@) =~= ds.take(i as int).map_values(|d: DelegateInfo| info_enc(d)),
        decreases ds.len() - i,
    {
        parts.push(encode_info(&infos[i]));
        assert(ds.take(i + 1).map_values(|d: DelegateInfo| info_enc(d)) =~= ds.take(
            i as int,
        ).map_values(|d: DelegateInfo| info_enc(d)).push(info_enc(ds[i as int])));
        i = i + 1;
    }
    assert(ds.take(ds.len() as int) =~= ds);
    proof {
        lemma_table_len(ds.map_values(|d: DelegateInfo| info_enc(d)));
    }
    encode_table(&parts)
}

fn encode_group(g: &StakeGroupInfo) -> (r: Option<Vec<u8>>)
    ensures
        r is Some <==> group_enc(*g).len() <= u32::MAX,
        r matches Some(v) ==> v@ == group_enc(*g),
{
    proof {
        lemma_table_len(group_parts(*g));
        crate::molecule::lemma_le_bytes_len(g.delegate_old_epoch_proof@.len(), 4);
        crate::molecule::lemma_le_bytes_len(g.delegate_new_epoch_proof@.len(), 4);
    }
    let infos = match encode_infos(&g.delegate_infos) {
        Some(v) => v,
        None => {
            proof {
                lemma_part_le_table(group_parts(*g), 1);
            }
            return None;
        },
    };
    if g.delegate_old_epoch_proof.len() > 0xffff_fffb {
        proof {
            lemma_part_le_table(group_parts(*g), 2);
        }
        return None;
    }
    if g.delegate_new_epoch_proof.len() > 0xffff_fffb {
        proof {
            lemma_part_le_table(group_parts(*g), 3);
        }
        return None;
    }
    let old = encode_fixvec(g.delegate_old_epoch_proof.as_slice());
    let new = encode_fixvec(g.delegate_new_epoch_proof.as_slice());
    let parts: Vec<Vec<u8>> = vec![bytes_of(g.staker.as_slice()), infos, old, new];
    assert(views(parts@) =~= group_parts(*g));
    encode_table(&parts)
}

fn encode_groups(gs: &Vec<StakeGroupInfo>) -> (r: Option<Vec<u8>>)
    ensures
        r is Some <==> groups_enc(gs@).len() <= u32::MAX,
        r matches Some(v) ==> v@ == groups_enc(gs@),
{
    let ghost s = gs@;
    let ghost all = s.map_values(|g: StakeGroupInfo| group_enc(g));
    proof {
        lemma_table_len(all);
    }
    let mut parts: Vec<Vec<u8>> = Vec::new();
    let mut i: usize = 0;
    while i < gs.len()
        invariant
            s == gs@,
            all == s.map_values(|g: StakeGroupInfo| group_enc(g)),
            groups_enc(s).len() == table_len(all),
            i <= s.len(),
            views(parts@) =~= s.take(i as int).map_values(|g: StakeGroupInfo| group_enc(g)),
        decreases s.len() - i,
    {
        match encode_group(&gs[i]) {
            Some(v) => parts.push(v),
            None => {
                proof {
                    lemma_part_le_table(all, i as int);
                }
                return None;
            },
        }
        assert(s.take(i + 1).map_values(|g: StakeGroupInfo| group_enc(g)) =~= s.take(
            i as int,
        ).map_values(|g: StakeGroupInfo| group_enc(g)).push(group_enc(s[i as int])));
        i = i + 1;
    }
    assert(s.take(s.len() as int) =~= s);
    encode_table(&parts)
}

impl DelegateWitness {
    /// A witness whose lock field reserves the place of a signature of the
    /// given mode; no signing is done here.
    pub fn witness_placeholder(mode: u8) -> (r: Vec<u8>)
        ensures
            r@ == placeholder_layout(mode),
    {
        let inner: Vec<u8> = vec![mode];
        assert(inner@ =~= seq![mode]);
        let parts: Vec<Vec<u8>> = vec![inner];
        proof {
            let ps = seq![seq![mode]];
            assert(views(parts@) =~= ps);
            assert(ps.drop_last() =~= Seq::<Seq<u8>>::empty());
            assert(crate::molecule::flatten(Seq::<Seq<u8>>::empty()) == Seq::<u8>::empty());
            assert(crate::molecule::flatten(ps) == crate::molecule::flatten(ps.drop_last()) + ps.last());
            assert(crate::molecule::flatten(ps) =~= seq![mode]);
            lemma_table_len(ps);
        }
        let lock_field = match encode_table(&parts) {
            Some(v) => v,
            None => Vec::new(),
        };
        witness_args(Some(lock_field.as_slice()), None)
    }

    /// The tree-update witness for `all_delegate_infos`, in the given order:
    /// the list is neither reordered nor deduplicated.
    pub fn smt_witness(all_delegate_infos: Vec<StakeGroupInfo>) -> (r: Result<Vec<u8>, EncodingError>)
        ensures
            any_duplicate_delegator(all_delegate_infos@) ==> r == Err::<Vec<u8>, EncodingError>(
                EncodingError::DuplicateDelegator,
            ),
            !any_duplicate_delegator(all_delegate_infos@) && !smt_witness_fits(all_delegate_infos@)
                ==> r == Err::<Vec<u8>, EncodingError>(EncodingError::TooLarge),
            !any_duplicate_delegator(all_delegate_infos@) && smt_witness_fits(all_delegate_infos@)
                ==> (r matches Ok(w) && w@ == smt_witness_layout(all_delegate_infos@)),
    {
        let ghost gs = all_delegate_infos@;
        let mut k: usize = 0;
        while k < all_delegate_infos.len()
            invariant
                gs == all_delegate_infos@,
                k <= gs.len(),
                forall|a: int| 0 <= a < k ==> !has_duplicate_delegator(#[trigger] gs[a].delegate_infos@),
            decreases gs.len() - k,
        {
            if find_duplicate_delegator(&all_delegate_infos[k].delegate_infos) {
                return Err(EncodingError::DuplicateDelegator);
            }
            k = k + 1;
        }
        let ghost update = seq![groups_enc(gs)];
        let ghost outer = seq![seq![0u8], table(update)];
        proof {
            lemma_table_len(update);
            lemma_table_len(outer);
            lemma_part_le_table(update, 0);
            lemma_part_le_table(outer, 1);
        }
        let groups = match encode_groups(&all_delegate_infos) {
            Some(v) => v,
            None => return Err(EncodingError::TooLarge),
        };
        let update_parts: Vec<Vec<u8>> = vec![groups];
        assert(views(update_parts@) =~= update);
        let update_info = match encode_table(&update_parts) {
            Some(v) => v,
            None => return Err(EncodingError::TooLarge),
        };
        let mode: Vec<u8> = vec![0u8];
        assert(mode@ =~= seq![0u8]);
        let parts: Vec<Vec<u8>> = vec![mode, update_info];
        assert(views(parts@) =~= outer);
        let payload = match encode_table(&parts) {
            Some(v) => v,
            None => return Err(EncodingError::TooLarge),
        };
        if payload.len() > 0xffff_ffff - 24 {
            return Err(EncodingError::TooLarge);
        }
        Ok(witness_args(None, Some(payload.as_slice())))
    }
}

} // verus!
