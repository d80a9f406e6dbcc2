use tx_builder::assemble::{assemble, AssembleError, CellOutput, SigningSlot, TxInput};
use tx_builder::cells::Cell;
use tx_builder::scripts::{CellDep, OutPoint, Script};

fn script(seed: u8) -> Script {
    Script { code_hash: [seed; 32], hash_type: 1, args: vec![seed] }
}

fn input(index: u32, witness: Vec<u8>, signer: Option<[u8; 20]>) -> TxInput {
    TxInput {
        cell: Cell {
            out_point: OutPoint { tx_hash: [1; 32], index },
            capacity: 100,
            lock: script(1),
            type_: None,
            data: vec![],
        },
        witness,
        signer,
    }
}

fn output() -> CellOutput {
    CellOutput { capacity: 50, lock: script(2), type_: Some(script(3)) }
}

fn dep() -> CellDep {
    CellDep { out_point: OutPoint { tx_hash: [9; 32], index: 0 }, dep_type: 0 }
}

#[test]
fn assemble_places_witnesses_and_lists_signers() {
    let inputs = vec![input(0, vec![1, 2], None), input(1, vec![3], Some([7; 20])), input(2, vec![], Some([8; 20]))];
    let (tx, slots) = assemble(&inputs, vec![output()], vec![vec![5, 5]], vec![dep()]).unwrap();
    assert_eq!(tx.inputs.iter().map(|o| o.index).collect::<Vec<_>>(), vec![0, 1, 2]);
    assert_eq!(tx.witnesses, vec![vec![1, 2], vec![3], vec![]]);
    assert_eq!(tx.outputs, vec![output()]);
    assert_eq!(tx.outputs_data, vec![vec![5, 5]]);
    assert_eq!(tx.cell_deps, vec![dep()]);
    assert_eq!(
        slots,
        vec![
            SigningSlot { input_index: 1, signer: [7; 20] },
            SigningSlot { input_index: 2, signer: [8; 20] },
        ]
    );
}

#[test]
fn assemble_rejects_spending_a_cell_twice() {
    let inputs = vec![input(4, vec![], None), input(5, vec![], None), input(4, vec![], None)];
    assert_eq!(
        assemble(&inputs, vec![], vec![], vec![]).map(|_| ()),
        Err(AssembleError::DuplicateInput)
    );
}

#[test]
fn assemble_needs_data_for_each_output() {
    let inputs = vec![input(4, vec![], None)];
    assert_eq!(
        assemble(&inputs, vec![output()], vec![], vec![]).map(|_| ()),
        Err(AssembleError::OutputDataMismatch)
    );
}
