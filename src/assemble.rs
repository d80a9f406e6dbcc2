//! Assembly of an unsigned transaction from its inputs, outputs and cell
//! dependencies, with the manifest of the inputs that still need a signature.

use vstd::prelude::*;

use crate::cells::Cell;
use crate::scripts::{bytes_of, same_bytes, CellDep, OutPoint, Script};

verus! {

/// An input to spend: the cell, the witness placed at its position, and the
/// address whose signature it needs, if any.
pub struct TxInput {
    pub cell: Cell,
    pub witness: Vec<u8>,
    pub signer: Option<[u8; 20]>,
}

/// A cell to create.
#[derive(Clone, Debug, PartialEq, Eq)]
pub struct CellOutput {
    pub capacity: u64,
    pub lock: Script,
    pub type_: Option<Script>,
}

/// A transaction before signing.
#[derive(Clone, Debug, PartialEq, Eq)]
pub struct UnsignedTx {
    pub inputs: Vec<OutPoint>,
    pub outputs: Vec<CellOutput>,
    pub outputs_data: Vec<Vec<u8>>,
    pub cell_deps: Vec<CellDep>,
    pub witnesses: Vec<Vec<u8>>,
}

/// An input position whose witness must be signed by `signer`.
#[derive(Clone, Copy, Debug, PartialEq, Eq)]
pub struct SigningSlot {
    pub input_index: usize,
    pub signer: [u8; 20],
}

/// Why a transaction could not be assembled.
#[derive(Clone, Copy, Debug, PartialEq, Eq, Structural)]
pub enum AssembleError {
    /// Two inputs spend the same cell.
    DuplicateInput,
    /// The outputs and their data differ in number.
    OutputDataMismatch,
}

pub open spec fn out_point_view(o: OutPoint) -> (Seq<u8>, u32) {
    (o.tx_hash@, o.index)
}

/// Two inputs spend the same cell.
pub open spec fn has_duplicate_input(inputs: Seq<TxInput>) -> bool {
    exists|i: int, j: int|
        0 <= i < j < inputs.len() && out_point_view(inputs[i].cell.out_point) == out_point_view(
            inputs[j].cell.out_point,
        )
}

/// The signing manifest: the positions with a signer, in increasing order.
pub open spec fn signing_slots(inputs: Seq<TxInput>) -> Seq<(nat, Seq<u8>)>
    decreases inputs.len(),
{
    if inputs.len() == 0 {
        seq![]
    } else {
        let p = signing_slots(inputs.drop_last());
        match inputs.last().signer {
            Some(s) => p.push(((inputs.len() - 1) as nat, s@)),
            None => p,
        }
    }
}

pub open spec fn slot_view(s: SigningSlot) -> (nat, Seq<u8>) {
    (s.input_index as nat, s.signer@)
}

fn same_out_point(a: &OutPoint, b: &OutPoint) -> (r: bool)
    ensures
        r == (out_point_view(*a) == out_point_view(*b)),
{
    a.index == b.index && same_bytes(a.tx_hash.as_slice(), b.tx_hash.as_slice())
}

fn find_duplicate_input(inputs: &Vec<TxInput>) -> (r: bool)
    ensures
        r == has_duplicate_input(inputs@),
{
    let n = inputs.len();
    let mut i: usize = 0;
    while i < n
        invariant
            n == inputs@.len(),
            i <= n,
            forall|a: int, b: int|
                0 <= a < b < n && a < i ==> out_point_view(inputs@[a].cell.out_point)
                    != out_point_view(inputs@[b].cell.out_point),
        decreases n - i,
    {
        let mut j: usize = i + 1;
        while j < n
            invariant
                n == inputs@.len(),
                i < n,
                i < j <= n,
                forall|a: int, b: int|
                    0 <= a < b < n && a < i ==> out_point_view(inputs@[a].cell.out_point)
                        != out_point_view(inputs@[b].cell.out_point),
                forall|b: int|
                    i < b < j ==> out_point_view(inputs@[i as int].cell.out_point)
                        != out_point_view(inputs@[b].cell.out_point),
            decreases n - j,
        {
            if same_out_point(&inputs[i].cell.out_point, &inputs[j].cell.out_point) {
                return true;
            }
            j = j + 1;
        }
        i = i + 1;
    }
    false
}

/// The unsigned transaction spending `inputs` in order, with each input's
/// witness at its position, creating `outputs` with `outputs_data`, and the
/// manifest of the inputs that need a signature.
pub fn assemble(
    inputs: &Vec<TxInput>,
    outputs: Vec<CellOutput>,
    outputs_data: Vec<Vec<u8>>,
    cell_deps: Vec<CellDep>,
) -> (r: Result<(UnsignedTx, Vec<SigningSlot>), AssembleError>)
    ensures
        has_duplicate_input(inputs@) ==> r == Err::<(UnsignedTx, Vec<SigningSlot>), AssembleError>(
            AssembleError::DuplicateInput,
        ),
        !has_duplicate_input(inputs@) && outputs@.len() != outputs_data@.len() ==> r == Err::<
            (UnsignedTx, Vec<SigningSlot>),
            AssembleError,
        >(AssembleError::OutputDataMismatch),
        !has_duplicate_input(inputs@) && outputs@.len() == outputs_data@.len() ==> (r matches Ok(
            (tx, slots),
        ) && tx.inputs@ == inputs@.map_values(|c: TxInput| c.cell.out_point) && tx.witnesses@.map_values(
            |w: Vec<u8>| w@,
        ) == inputs@.map_values(|c: TxInput| c.witness@) && tx.outputs@ == outputs@
            && tx.outputs_data@ == outputs_data@ && tx.cell_deps@ == cell_deps@ && slots@.map_values(
            |s: SigningSlot| slot_view(s),
        ) == signing_slots(inputs@)),
{
    if find_duplicate_input(inputs) {
        return Err(AssembleError::DuplicateInput);
    }
    if outputs.len() != outputs_data.len() {
        return Err(AssembleError::OutputDataMismatch);
    }
    let ghost ins = inputs@;
    let mut points: Vec<OutPoint> = Vec::new();
    let mut witnesses: Vec<Vec<u8>> = Vec::new();
    let mut slots: Vec<SigningSlot> = Vec::new();
    let mut i: usize = 0;
    while i < inputs.len()
        invariant
            ins == inputs@,
            i <= ins.len(),
            points@ == ins.take(i as int).map_values(|c: TxInput| c.cell.out_point),
            witnesses@.map_values(|w: Vec<u8>| w@) == ins.take(i as int).map_values(
                |c: TxInput| c.witness@,
            ),
            slots@.map_values(|s: SigningSlot| slot_view(s)) == signing_slots(ins.take(i as int)),
        decreases ins.len() - i,
    {
        let ghost pre = ins.take(i as int);
        let ghost next = ins.take(i + 1);
        assert(next.drop_last() =~= pre);
        assert(next.last() == ins[i as int]);
        points.push(inputs[i].cell.out_point);
        assert(points@ =~= next.map_values(|c: TxInput| c.cell.out_point));
        let w = bytes_of(inputs[i].witness.as_slice());
        let ghost before = witnesses@;
        witnesses.push(w);
        assert(witnesses@.map_values(|w: Vec<u8>| w@) =~= before.map_values(|w: Vec<u8>| w@).push(
            ins[i as int].witness@,
        ));
        assert(witnesses@.map_values(|w: Vec<u8>| w@) =~= next.map_values(|c: TxInput| c.witness@));
        match inputs[i].signer {
            Some(s) => {
                slots.push(SigningSlot { input_index: i, signer: s });
                assert(slots@.map_values(|s: SigningSlot| slot_view(s)) =~= signing_slots(
                    pre,
                ).push((i as nat, s@)));
            },
            None => {},
        }
        i = i + 1;
    }
    assert(ins.take(ins.len() as int) =~= ins);
    Ok((UnsignedTx { inputs: points, outputs, outputs_data, cell_deps, witnesses }, slots))
}

} // verus!
