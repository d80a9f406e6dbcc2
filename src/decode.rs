//! Reading encoded records back. These readers are specifications: they show
//! that the witness encodings lose nothing, the order of entries included.

use vstd::prelude::*;

use crate::ckb::witness_args_layout;
use crate::delta::{le_value, pow256};
use crate::molecule::{
    fixvec, flatten, header_len, le_bytes, lemma_flatten_step, lemma_le_bytes_len,
    lemma_offsets_len, lemma_part_le_table, lemma_table_len, offsets, opt_fixvec, table, table_len,
    u32_le,
};
use crate::witness::{
    group_enc, group_parts, groups_enc, info_enc, infos_enc, smt_witness_enc, smt_witness_fits,
    smt_witness_layout, DelegateInfo, StakeGroupInfo,
};

verus! {

/// The 32-bit number stored at `at`.
pub open spec fn read_u32(b: Seq<u8>, at: int) -> nat {
    le_value(b.subrange(at, at + 4))
}

/// The number of fields of a table (or items of a vector) as its header tells.
pub open spec fn field_count(b: Seq<u8>) -> nat {
    if read_u32(b, 0) <= 4 {
        0
    } else {
        (read_u32(b, 4) / 4 - 1) as nat
    }
}

/// Field `i` of a table: from its offset to the next one, or to the end.
pub open spec fn field(b: Seq<u8>, i: int) -> Seq<u8> {
    let start = read_u32(b, 4 * (i + 1));
    let end = if i + 1 < field_count(b) {
        read_u32(b, 4 * (i + 2))
    } else {
        read_u32(b, 0)
    };
    b.subrange(start as int, end as int)
}

/// All fields of a table.
pub open spec fn fields(b: Seq<u8>) -> Seq<Seq<u8>> {
    Seq::new(field_count(b), |i: int| field(b, i))
}

/// The bytes of a byte vector.
pub open spec fn unfix(b: Seq<u8>) -> Seq<u8> {
    b.subrange(4, b.len() as int)
}

/// A delegator entry as address and amount.
pub type InfoView = (Seq<u8>, nat);

/// A group as staker, old proof, new proof and delegator entries.
pub type GroupView = (Seq<u8>, Seq<u8>, Seq<u8>, Seq<InfoView>);

pub open spec fn info_view(d: DelegateInfo) -> InfoView {
    (d.delegator_addr@, d.amount as nat)
}

pub open spec fn group_view(g: StakeGroupInfo) -> GroupView {
    (
        g.staker@,
        g.delegate_old_epoch_proof@,
        g.delegate_new_epoch_proof@,
        g.delegate_infos@.map_values(|d: DelegateInfo| info_view(d)),
    )
}

pub open spec fn decode_info(b: Seq<u8>) -> InfoView {
    (fields(b)[0], le_value(fields(b)[1]))
}

pub open spec fn decode_group(b: Seq<u8>) -> GroupView {
    let f = fields(b);
    (f[0], unfix(f[2]), unfix(f[3]), fields(f[1]).map_values(|d: Seq<u8>| decode_info(d)))
}

/// The groups carried by a tree-update witness, in order.
pub open spec fn decode_smt_witness(w: Seq<u8>) -> Seq<GroupView> {
    let payload = unfix(fields(w)[1]);
    let update = fields(fields(payload)[1]);
    fields(update[0]).map_values(|g: Seq<u8>| decode_group(g))
}

proof fn lemma_le_round_trip(v: nat, k: nat)
    requires
        v < pow256(k),
    ensures
        le_value(le_bytes(v, k)) == v,
    decreases k,
{
    lemma_le_bytes_len(v, k);
    if k == 0 {
    } else {
        let p = pow256((k - 1) as nat);
        assert(v / 256 < p) by (nonlinear_arith)
            requires
                v < 256 * p,
        ;
        lemma_le_round_trip(v / 256, (k - 1) as nat);
        let s = le_bytes(v, k);
        assert(s.drop_first() =~= le_bytes(v / 256, (k - 1) as nat));
        assert(v == v % 256 + 256 * (v / 256)) by (nonlinear_arith);
    }
}

proof fn lemma_u32_round_trip(v: nat)
    requires
        v <= u32::MAX,
    ensures
        le_value(u32_le(v)) == v,
        u32_le(v).len() == 4,
{
    reveal_with_fuel(pow256, 5);
    lemma_le_round_trip(v, 4);
    lemma_le_bytes_len(v, 4);
}

proof fn lemma_offsets_at(parts: Seq<Seq<u8>>, k: nat, i: int)
    requires
        0 <= i < k,
    ensures
        offsets(parts, k).subrange(4 * i, 4 * i + 4) == u32_le(
            header_len(parts.len()) + flatten(parts.take(i)).len(),
        ),
    decreases k,
{
    let prev = offsets(parts, (k - 1) as nat);
    let last = u32_le(header_len(parts.len()) + flatten(parts.take(k - 1)).len());
    lemma_offsets_len(parts, (k - 1) as nat);
    lemma_le_bytes_len(header_len(parts.len()) + flatten(parts.take(k - 1)).len(), 4);
    assert(offsets(parts, k) == prev + last);
    if i == k - 1 {
        assert((prev + last).subrange(4 * i, 4 * i + 4) =~= last);
    } else {
        lemma_offsets_at(parts, (k - 1) as nat, i);
        assert((prev + last).subrange(4 * i, 4 * i + 4) =~= prev.subrange(4 * i, 4 * i + 4));
    }
}

proof fn lemma_flatten_prefix(parts: Seq<Seq<u8>>, j: int)
    requires
        0 <= j <= parts.len(),
    ensures
        flatten(parts.take(j)).len() <= flatten(parts).len(),
        flatten(parts).subrange(0, flatten(parts.take(j)).len() as int) == flatten(parts.take(j)),
    decreases parts.len() - j,
{
    if j == parts.len() {
        assert(parts.take(j) =~= parts);
        assert(flatten(parts).subrange(0, flatten(parts).len() as int) =~= flatten(parts));
    } else {
        lemma_flatten_prefix(parts, j + 1);
        lemma_flatten_step(parts, j);
        let a = flatten(parts.take(j));
        let b = flatten(parts.take(j + 1));
        assert(b.subrange(0, a.len() as int) =~= a);
        assert(flatten(parts).subrange(0, a.len() as int) =~= flatten(parts).subrange(
            0,
            b.len() as int,
        ).subrange(0, a.len() as int));
    }
}

proof fn lemma_flatten_part(parts: Seq<Seq<u8>>, i: int)
    requires
        0 <= i < parts.len(),
    ensures
        flatten(parts.take(i + 1)).len() <= flatten(parts).len(),
        flatten(parts).subrange(
            flatten(parts.take(i)).len() as int,
            flatten(parts.take(i + 1)).len() as int,
        ) == parts[i],
{
    lemma_flatten_prefix(parts, i + 1);
    lemma_flatten_step(parts, i);
    let a = flatten(parts.take(i));
    let b = flatten(parts.take(i + 1));
    assert(b.subrange(a.len() as int, b.len() as int) =~= parts[i]);
    assert(flatten(parts).subrange(a.len() as int, b.len() as int) =~= flatten(parts).subrange(
        0,
        b.len() as int,
    ).subrange(a.len() as int, b.len() as int));
}

/// Reading the fields of an encoded table gives back its parts.
pub proof fn lemma_table_fields(parts: Seq<Seq<u8>>)
    requires
        table_len(parts) <= u32::MAX,
    ensures
        fields(table(parts)) == parts,
{
    let n = parts.len();
    let t = table(parts);
    let h = u32_le(table_len(parts));
    let o = offsets(parts, n);
    let d = flatten(parts);
    lemma_u32_round_trip(table_len(parts));
    lemma_offsets_len(parts, n);
    assert(t == h + o + d);
    assert(t.subrange(0, 4) =~= h);
    assert forall|i: int| 0 <= i < n implies t.subrange(4 * (i + 1), 4 * (i + 1) + 4) == u32_le(
        header_len(n) + flatten(parts.take(i)).len(),
    ) && read_u32(t, 4 * (i + 1)) == header_len(n) + flatten(parts.take(i)).len() by {
        lemma_offsets_at(parts, n, i);
        lemma_flatten_prefix(parts, i);
        assert(t.subrange(4 * (i + 1), 4 * (i + 1) + 4) =~= o.subrange(4 * i, 4 * i + 4));
        lemma_u32_round_trip(header_len(n) + flatten(parts.take(i)).len());
    }
    if n > 0 {
        assert(parts.take(0) =~= Seq::<Seq<u8>>::empty());
        assert(flatten(parts.take(0)) =~= Seq::<u8>::empty());
        assert(read_u32(t, 4) == header_len(n));
    }
    assert(field_count(t) == n);
    assert(t.len() == header_len(n) + d.len());
    assert(parts.take(n as int) =~= parts);
    assert forall|i: int| 0 <= i < n implies field(t, i) == parts[i] by {
        lemma_flatten_part(parts, i);
        lemma_flatten_step(parts, i);
        let a = flatten(parts.take(i)).len() as int;
        let b = flatten(parts.take(i + 1)).len() as int;
        if i + 1 < n {
            assert(read_u32(t, 4 * (i + 2)) == header_len(n) + b);
        }
        assert(t.subrange(header_len(n) + a, header_len(n) + b) =~= d.subrange(a, b));
    }
    assert(fields(t) =~= parts);
}

proof fn lemma_fixvec_round_trip(b: Seq<u8>)
    ensures
        unfix(fixvec(b)) == b,
{
    lemma_le_bytes_len(b.len(), 4);
    assert(unfix(fixvec(b)) =~= b);
}

proof fn lemma_info_round_trip(d: DelegateInfo)
    ensures
        decode_info(info_enc(d)) == info_view(d),
{
    let parts = seq![d.delegator_addr@, le_bytes(d.amount as nat, 16)];
    lemma_le_bytes_len(d.amount as nat, 16);
    crate::scripts::lemma_two_fields(d.delegator_addr@, le_bytes(d.amount as nat, 16));
    lemma_table_fields(parts);
    reveal_with_fuel(pow256, 17);
    lemma_le_round_trip(d.amount as nat, 16);
}

proof fn lemma_group_round_trip(g: StakeGroupInfo)
    requires
        group_enc(g).len() <= u32::MAX,
    ensures
        decode_group(group_enc(g)) == group_view(g),
{
    let parts = group_parts(g);
    lemma_table_len(parts);
    lemma_table_fields(parts);
    lemma_fixvec_round_trip(g.delegate_old_epoch_proof@);
    lemma_fixvec_round_trip(g.delegate_new_epoch_proof@);
    lemma_part_le_table(parts, 1);
    let ds = g.delegate_infos@;
    let encs = ds.map_values(|d: DelegateInfo| info_enc(d));
    lemma_table_len(encs);
    lemma_table_fields(encs);
    assert forall|i: int| 0 <= i < ds.len() implies decode_info(encs[i]) == info_view(ds[i]) by {
        lemma_info_round_trip(ds[i]);
    }
    assert(fields(infos_enc(ds)).map_values(|d: Seq<u8>| decode_info(d)) =~= ds.map_values(
        |d: DelegateInfo| info_view(d),
    ));
}

proof fn lemma_witness_input(payload: Seq<u8>)
    requires
        payload.len() + 24 <= u32::MAX,
    ensures
        unfix(fields(witness_args_layout(None, Some(payload)))[1]) == payload,
{
    let wparts = seq![opt_fixvec(None), opt_fixvec(Some(payload)), seq![]];
    lemma_le_bytes_len(payload.len(), 4);
    let w2 = seq![opt_fixvec(None), opt_fixvec(Some(payload))];
    let w1 = seq![opt_fixvec(None)];
    let w0 = Seq::<Seq<u8>>::empty();
    assert(wparts.drop_last() =~= w2);
    assert(w2.drop_last() =~= w1);
    assert(w1.drop_last() =~= w0);
    assert(flatten(w0) == Seq::<u8>::empty());
    assert(flatten(w1) == flatten(w0) + Seq::<u8>::empty());
    assert(flatten(w1) =~= Seq::<u8>::empty());
    assert(flatten(w2) == flatten(w1) + fixvec(payload));
    assert(flatten(w2) =~= fixvec(payload));
    assert(flatten(wparts) == flatten(w2) + Seq::<u8>::empty());
    assert(flatten(wparts) =~= fixvec(payload));
    lemma_table_fields(wparts);
    lemma_fixvec_round_trip(payload);
}

proof fn lemma_payload_groups(gs: Seq<StakeGroupInfo>)
    requires
        smt_witness_enc(gs).len() <= u32::MAX,
    ensures
        fields(fields(smt_witness_enc(gs))[1])[0] == groups_enc(gs),
        groups_enc(gs).len() <= u32::MAX,
{
    let update = seq![groups_enc(gs)];
    let outer = seq![seq![0u8], table(update)];
    lemma_table_len(outer);
    lemma_table_len(update);
    lemma_part_le_table(outer, 1);
    lemma_part_le_table(update, 0);
    lemma_table_fields(outer);
    lemma_table_fields(update);
}

/// Decoding the tree-update witness of a list of groups gives back the list,
/// in the same order.
pub proof fn lemma_smt_witness_round_trip(gs: Seq<StakeGroupInfo>)
    requires
        smt_witness_fits(gs),
    ensures
        decode_smt_witness(smt_witness_layout(gs)) == gs.map_values(|g: StakeGroupInfo| group_view(g)),
{
    lemma_witness_input(smt_witness_enc(gs));
    lemma_payload_groups(gs);
    let encs = gs.map_values(|g: StakeGroupInfo| group_enc(g));
    lemma_table_len(encs);
    lemma_table_fields(encs);
    assert forall|i: int| 0 <= i < gs.len() implies decode_group(encs[i]) == group_view(gs[i]) by {
        lemma_part_le_table(encs, i);
        lemma_group_round_trip(gs[i]);
    }
    assert(fields(groups_enc(gs)).map_values(|g: Seq<u8>| decode_group(g)) =~= gs.map_values(
        |g: StakeGroupInfo| group_view(g),
    ));
}

} // verus!
