//! Network context and the scripts and cell dependencies of the delegation
//! protocol, derived from it.

use vstd::prelude::*;

use crate::ckb::{calc_script_hash, script_hash_of};
use crate::molecule::{encode_table, flatten, table, table_len, views};

verus! {

/// The network that a build targets.
#[derive(Clone, Copy, Debug, PartialEq, Eq, Structural)]
pub enum NetworkType {
    Devnet,
    Testnet,
    Mainnet,
}

/// Where one protocol script is deployed and how it is referenced.
#[derive(Clone, Copy, Debug, PartialEq, Eq)]
pub struct ScriptTemplate {
    pub code_hash: [u8; 32],
    pub hash_type: u8,
    pub tx_hash: [u8; 32],
    pub index: u32,
    pub dep_type: u8,
}

/// The deployed-script table of one network, passed explicitly to every
/// derivation.
#[derive(Clone, Copy, Debug, PartialEq, Eq)]
pub struct NetworkContext {
    pub network: NetworkType,
    pub metadata_type: ScriptTemplate,
    pub delegate_lock: ScriptTemplate,
    pub delegate_smt_type: ScriptTemplate,
    pub delegate_requirement_type: ScriptTemplate,
}

/// A lock or type script.
#[derive(Clone, Debug, PartialEq, Eq)]
pub struct Script {
    pub code_hash: [u8; 32],
    pub hash_type: u8,
    pub args: Vec<u8>,
}

/// A reference to a transaction output.
#[derive(Clone, Copy, Debug, PartialEq, Eq)]
pub struct OutPoint {
    pub tx_hash: [u8; 32],
    pub index: u32,
}

/// A cell dependency of a transaction.
#[derive(Clone, Copy, Debug, PartialEq, Eq)]
pub struct CellDep {
    pub out_point: OutPoint,
    pub dep_type: u8,
}

/// The delegation protocol's scripts.
pub struct Delegate;

/// Hash of the metadata type script of the deployment `metadata_type_id`.
pub open spec fn metadata_type_hash(ctx: NetworkContext, metadata_type_id: Seq<u8>) -> Seq<u8> {
    script_hash_of(ctx.metadata_type.code_hash@, ctx.metadata_type.hash_type, metadata_type_id)
}

/// Arguments of a delegator's lock: metadata type hash, delegator address.
pub open spec fn delegate_args(metadata_hash: Seq<u8>, delegator_addr: Seq<u8>) -> Seq<u8> {
    table(seq![metadata_hash, delegator_addr])
}

/// Arguments of the requirement type: metadata type hash and a requirement
/// instance identifier that is not wired yet (all zero).
pub open spec fn requirement_args(metadata_hash: Seq<u8>) -> Seq<u8> {
    table(seq![metadata_hash, Seq::new(32, |i: int| 0u8)])
}

/// The view of a delegator's lock on the network of `ctx`.
pub open spec fn lock_view(ctx: NetworkContext, metadata_type_id: Seq<u8>, addr: Seq<u8>) -> (
    Seq<u8>,
    u8,
    Seq<u8>,
) {
    (
        ctx.delegate_lock.code_hash@,
        ctx.delegate_lock.hash_type,
        delegate_args(metadata_type_hash(ctx, metadata_type_id), addr),
    )
}

/// The view of the delegation tree type script on the network of `ctx`.
pub open spec fn smt_type_view(ctx: NetworkContext, tree_id: Seq<u8>) -> (Seq<u8>, u8, Seq<u8>) {
    (ctx.delegate_smt_type.code_hash@, ctx.delegate_smt_type.hash_type, tree_id)
}

/// The view of the requirement type script on the network of `ctx`.
pub open spec fn requirement_view(ctx: NetworkContext, metadata_type_id: Seq<u8>) -> (
    Seq<u8>,
    u8,
    Seq<u8>,
) {
    (
        ctx.delegate_requirement_type.code_hash@,
        ctx.delegate_requirement_type.hash_type,
        requirement_args(metadata_type_hash(ctx, metadata_type_id)),
    )
}

/// The cell dependency that refers to a template's deployment.
pub open spec fn template_dep(t: ScriptTemplate) -> CellDep {
    CellDep { out_point: OutPoint { tx_hash: t.tx_hash, index: t.index }, dep_type: t.dep_type }
}

/// The view of a script: code hash, hash type and arguments.
pub open spec fn script_view(s: Script) -> (Seq<u8>, u8, Seq<u8>) {
    (s.code_hash@, s.hash_type, s.args@)
}

pub proof fn lemma_two_fields(a: Seq<u8>, b: Seq<u8>)
    ensures
        flatten(seq![a, b]) == a + b,
{
    assert(seq![a, b].drop_last() =~= seq![a]);
    assert(seq![a].drop_last() =~= Seq::<Seq<u8>>::empty());
    assert(flatten(Seq::<Seq<u8>>::empty()) == Seq::<u8>::empty());
    assert(flatten(seq![a]) == flatten(seq![a].drop_last()) + a);
    assert(flatten(seq![a]) =~= a);
}

/// A copy of `b` as a vector.
pub fn bytes_of(b: &[u8]) -> (r: Vec<u8>)
    ensures
        r@ == b@,
{
    let mut r: Vec<u8> = Vec::new();
    crate::molecule::push_all(&mut r, b);
    r
}

/// Whether two byte strings are equal.
pub fn same_bytes(a: &[u8], b: &[u8]) -> (r: bool)
    ensures
        r == (a@ == b@),
{
    if a.len() != b.len() {
        return false;
    }
    let mut i: usize = 0;
    while i < a.len()
        invariant
            a@.len() == b@.len(),
            i <= a@.len(),
            forall|k: int| 0 <= k < i ==> a@[k] == b@[k],
        decreases a@.len() - i,
    {
        if a[i] != b[i] {
            return false;
        }
        i = i + 1;
    }
    assert(a@ =~= b@);
    true
}

/// Whether two scripts are the same script.
pub fn same_script(a: &Script, b: &Script) -> (r: bool)
    ensures
        r == (script_view(*a) == script_view(*b)),
{
    a.hash_type == b.hash_type && same_bytes(a.code_hash.as_slice(), b.code_hash.as_slice())
        && same_bytes(a.args.as_slice(), b.args.as_slice())
}

/// A table of two fixed-size fields.
fn encode_pair(a: &[u8], b: &[u8]) -> (r: Vec<u8>)
    requires
        a@.len() <= 32,
        b@.len() <= 32,
    ensures
        r@ == table(seq![a@, b@]),
{
    let parts: Vec<Vec<u8>> = vec![bytes_of(a), bytes_of(b)];
    proof {
        assert(views(parts@) =~= seq![a@, b@]);
        lemma_two_fields(a@, b@);
        assert(table_len(seq![a@, b@]) <= 76);
    }
    match encode_table(&parts) {
        Some(v) => v,
        None => Vec::new(),
    }
}

fn template_cell_dep(t: &ScriptTemplate) -> (r: CellDep)
    ensures
        r == template_dep(*t),
{
    CellDep { out_point: OutPoint { tx_hash: t.tx_hash, index: t.index }, dep_type: t.dep_type }
}

impl Delegate {
    /// Lock of a delegator's cells, bound to one metadata deployment.
    pub fn lock(ctx: &NetworkContext, metadata_type_id: &[u8; 32], delegate_addr: &[u8; 20]) -> (r:
        Script)
        ensures
            r.code_hash == ctx.delegate_lock.code_hash,
            r.hash_type == ctx.delegate_lock.hash_type,
            r.args@ == delegate_args(metadata_type_hash(*ctx, metadata_type_id@), delegate_addr@),
            script_view(r) == lock_view(*ctx, metadata_type_id@, delegate_addr@),
    {
        let metadata_hash = calc_script_hash(
            &ctx.metadata_type.code_hash,
            ctx.metadata_type.hash_type,
            metadata_type_id.as_slice(),
        );
        let args = encode_pair(metadata_hash.as_slice(), delegate_addr.as_slice());
        Script { code_hash: ctx.delegate_lock.code_hash, hash_type: ctx.delegate_lock.hash_type, args }
    }

    /// Type script of the delegation tree cell; its arguments are the tree's
    /// identifier.
    pub fn smt_type(ctx: &NetworkContext, delegate_smt_type_id: &[u8; 32]) -> (r: Script)
        ensures
            r.code_hash == ctx.delegate_smt_type.code_hash,
            r.hash_type == ctx.delegate_smt_type.hash_type,
            r.args@ == delegate_smt_type_id@,
            script_view(r) == smt_type_view(*ctx, delegate_smt_type_id@),
    {
        Script {
            code_hash: ctx.delegate_smt_type.code_hash,
            hash_type: ctx.delegate_smt_type.hash_type,
            args: bytes_of(delegate_smt_type_id.as_slice()),
        }
    }

    /// Type script of the delegation requirement cell of a metadata deployment.
    pub fn requirement_type(
        ctx: &NetworkContext,
        metadata_type_id: &[u8; 32],
        _staker_addr: &[u8; 20],
    ) -> (r: Script)
        ensures
            r.code_hash == ctx.delegate_requirement_type.code_hash,
            r.hash_type == ctx.delegate_requirement_type.hash_type,
            r.args@ == requirement_args(metadata_type_hash(*ctx, metadata_type_id@)),
            script_view(r) == requirement_view(*ctx, metadata_type_id@),
    {
        let metadata_hash = calc_script_hash(
            &ctx.metadata_type.code_hash,
            ctx.metadata_type.hash_type,
            metadata_type_id.as_slice(),
        );
        let zero = [0u8; 32];
        assert(zero@ =~= Seq::new(32, |i: int| 0u8));
        let args = encode_pair(metadata_hash.as_slice(), zero.as_slice());
        Script {
            code_hash: ctx.delegate_requirement_type.code_hash,
            hash_type: ctx.delegate_requirement_type.hash_type,
            args,
        }
    }

    /// Dependency on the deployment of the delegator lock.
    pub fn lock_dep(ctx: &NetworkContext) -> (r: CellDep)
        ensures
            r == template_dep(ctx.delegate_lock),
    {
        template_cell_dep(&ctx.delegate_lock)
    }

    /// Dependency on the deployment of the delegation tree type.
    pub fn smt_type_dep(ctx: &NetworkContext) -> (r: CellDep)
        ensures
            r == template_dep(ctx.delegate_smt_type),
    {
        template_cell_dep(&ctx.delegate_smt_type)
    }

    /// Dependency on the deployment of the requirement type.
    pub fn requriement_type_dep(ctx: &NetworkContext) -> (r: CellDep)
        ensures
            r == template_dep(ctx.delegate_requirement_type),
    {
        template_cell_dep(&ctx.delegate_requirement_type)
    }
}

/// On every network, a delegator's lock for the same metadata deployment and
/// address has the same arguments: networks that share the metadata script
/// differ only in the lock's code hash and hash type.
pub proof fn lemma_lock_args_network_independent(
    ctx1: NetworkContext,
    ctx2: NetworkContext,
    metadata_type_id: Seq<u8>,
    addr: Seq<u8>,
)
    requires
        ctx1.metadata_type == ctx2.metadata_type,
    ensures
        lock_view(ctx1, metadata_type_id, addr).2 == lock_view(ctx2, metadata_type_id, addr).2,
        lock_view(ctx1, metadata_type_id, addr).0 == ctx1.delegate_lock.code_hash@,
        lock_view(ctx1, metadata_type_id, addr).1 == ctx1.delegate_lock.hash_type,
        lock_view(ctx2, metadata_type_id, addr).0 == ctx2.delegate_lock.code_hash@,
        lock_view(ctx2, metadata_type_id, addr).1 == ctx2.delegate_lock.hash_type,
{
}

/// Deriving a script twice from the same inputs under the same network
/// context gives byte-identical scripts.
pub proof fn lemma_derivation_idempotent(
    ctx: NetworkContext,
    metadata_type_id: Seq<u8>,
    addr: Seq<u8>,
    tree_id: Seq<u8>,
    first: Script,
    second: Script,
)
    ensures
        script_view(first) == lock_view(ctx, metadata_type_id, addr) && script_view(second)
            == lock_view(ctx, metadata_type_id, addr) ==> script_view(first) == script_view(second),
        script_view(first) == smt_type_view(ctx, tree_id) && script_view(second) == smt_type_view(
            ctx,
            tree_id,
        ) ==> script_view(first) == script_view(second),
        script_view(first) == requirement_view(ctx, metadata_type_id) && script_view(second)
            == requirement_view(ctx, metadata_type_id) ==> script_view(first) == script_view(second),
{
}

} // verus!
