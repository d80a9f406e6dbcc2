use ckb_types::packed;
use ckb_types::prelude::{Builder, Entity, Pack};
use tx_builder::cells::{Cell, LookupError};
use tx_builder::confirm::{ConfirmOutcome, PollAction, RetryPolicy, TxStatus};
use tx_builder::delta::{read_le, DelegateInfoDelta};
use tx_builder::scripts::{Delegate, NetworkContext, NetworkType, OutPoint, Script, ScriptTemplate};
use tx_builder::witness::{DelegateInfo, DelegateWitness, EncodingError, StakeGroupInfo};

fn template(seed: u8) -> ScriptTemplate {
    ScriptTemplate {
        code_hash: [seed; 32],
        hash_type: seed % 3,
        tx_hash: [seed.wrapping_add(100); 32],
        index: seed as u32,
        dep_type: 0,
    }
}

fn context(network: NetworkType, seed: u8) -> NetworkContext {
    NetworkContext {
        network,
        metadata_type: template(1),
        delegate_lock: template(seed),
        delegate_smt_type: template(seed + 1),
        delegate_requirement_type: template(seed + 2),
    }
}

fn expected_hash(code_hash: [u8; 32], hash_type: u8, args: &[u8]) -> Vec<u8> {
    packed::Script::new_builder()
        .code_hash(code_hash.pack())
        .hash_type(packed::Byte::new(hash_type))
        .args(args.pack())
        .build()
        .calc_script_hash()
        .as_slice()
        .to_vec()
}

fn le32(n: u32) -> Vec<u8> {
    n.to_le_bytes().to_vec()
}

fn script(seed: u8) -> Script {
    Script { code_hash: [seed; 32], hash_type: 1, args: vec![seed, seed] }
}

fn cell(index: u32, lock: Script, ty: Option<Script>) -> Cell {
    Cell {
        out_point: OutPoint { tx_hash: [7; 32], index },
        capacity: 1000,
        lock,
        type_: ty,
        data: vec![],
    }
}

#[test]
fn lock_args_embed_metadata_hash_and_address() {
    let ctx = context(NetworkType::Testnet, 10);
    let metadata_id = [3u8; 32];
    let addr = [4u8; 20];
    let lock = Delegate::lock(&ctx, &metadata_id, &addr);
    assert_eq!(lock.code_hash, [10u8; 32]);
    assert_eq!(lock.hash_type, 1);
    let hash = expected_hash([1; 32], 1, &metadata_id);
    assert_ne!(hash, metadata_id.to_vec());
    let mut expected = Vec::new();
    expected.extend(le32(64));
    expected.extend(le32(12));
    expected.extend(le32(44));
    expected.extend(hash);
    expected.extend(addr);
    assert_eq!(lock.args, expected);
}

#[test]
fn lock_differs_across_networks_only_in_code_hash() {
    let metadata_id = [3u8; 32];
    let addr = [4u8; 20];
    let main = Delegate::lock(&context(NetworkType::Mainnet, 10), &metadata_id, &addr);
    let test = Delegate::lock(&context(NetworkType::Testnet, 20), &metadata_id, &addr);
    let dev = Delegate::lock(&context(NetworkType::Devnet, 30), &metadata_id, &addr);
    assert_eq!(main.args, test.args);
    assert_eq!(main.args, dev.args);
    assert_ne!(main.code_hash, test.code_hash);
    assert_ne!(test.code_hash, dev.code_hash);
}

#[test]
fn derivation_is_idempotent() {
    let ctx = context(NetworkType::Testnet, 10);
    let a = Delegate::lock(&ctx, &[5; 32], &[6; 20]);
    let b = Delegate::lock(&ctx, &[5; 32], &[6; 20]);
    assert_eq!(a, b);
    assert_eq!(Delegate::smt_type(&ctx, &[8; 32]), Delegate::smt_type(&ctx, &[8; 32]));
    assert_eq!(
        Delegate::requirement_type(&ctx, &[5; 32], &[6; 20]),
        Delegate::requirement_type(&ctx, &[5; 32], &[6; 20])
    );
}

#[test]
fn smt_type_args_are_tree_id() {
    let ctx = context(NetworkType::Mainnet, 10);
    let s = Delegate::smt_type(&ctx, &[9; 32]);
    assert_eq!(s.code_hash, [11u8; 32]);
    assert_eq!(s.hash_type, 2);
    assert_eq!(s.args, vec![9u8; 32]);
}

#[test]
fn requirement_type_args_have_zero_requirement_id() {
    let ctx = context(NetworkType::Testnet, 10);
    let s = Delegate::requirement_type(&ctx, &[5; 32], &[6; 20]);
    assert_eq!(s.code_hash, [12u8; 32]);
    let mut expected = Vec::new();
    expected.extend(le32(76));
    expected.extend(le32(12));
    expected.extend(le32(44));
    expected.extend(expected_hash([1; 32], 1, &[5; 32]));
    expected.extend([0u8; 32]);
    assert_eq!(s.args, expected);
}

#[test]
fn deps_follow_templates() {
    let ctx = context(NetworkType::Testnet, 10);
    let d = Delegate::lock_dep(&ctx);
    assert_eq!(d.out_point.tx_hash, [110u8; 32]);
    assert_eq!(d.out_point.index, 10);
    assert_eq!(d.dep_type, 0);
    assert_eq!(Delegate::smt_type_dep(&ctx).out_point.index, 11);
    assert_eq!(Delegate::requriement_type_dep(&ctx).out_point.index, 12);
}

#[test]
fn placeholder_reserves_lock_field() {
    let w = DelegateWitness::witness_placeholder(1);
    let expected: Vec<u8> = vec![
        29, 0, 0, 0, 16, 0, 0, 0, 29, 0, 0, 0, 29, 0, 0, 0, 9, 0, 0, 0, 9, 0, 0, 0, 8, 0, 0, 0, 1,
    ];
    assert_eq!(w, expected);
    let parsed = packed::WitnessArgs::from_slice(&w).unwrap();
    assert_eq!(parsed.lock().to_opt().unwrap().raw_data().to_vec(), vec![9, 0, 0, 0, 8, 0, 0, 0, 1]);
    assert!(parsed.input_type().to_opt().is_none());
}

#[test]
fn smt_witness_of_no_groups() {
    let w = DelegateWitness::smt_witness(vec![]).unwrap();
    let parsed = packed::WitnessArgs::from_slice(&w).unwrap();
    let payload = parsed.input_type().to_opt().unwrap().raw_data().to_vec();
    let expected: Vec<u8> = vec![
        25, 0, 0, 0, 12, 0, 0, 0, 13, 0, 0, 0, 0, 12, 0, 0, 0, 8, 0, 0, 0, 4, 0, 0, 0,
    ];
    assert_eq!(payload, expected);
    assert!(parsed.lock().to_opt().is_none());
}

#[test]
fn smt_witness_rejects_duplicate_delegator() {
    let g = StakeGroupInfo {
        staker: [1; 20],
        delegate_old_epoch_proof: vec![],
        delegate_new_epoch_proof: vec![],
        delegate_infos: vec![
            DelegateInfo { delegator_addr: [2; 20], amount: 5 },
            DelegateInfo { delegator_addr: [3; 20], amount: 6 },
            DelegateInfo { delegator_addr: [2; 20], amount: 7 },
        ],
    };
    assert_eq!(DelegateWitness::smt_witness(vec![g]), Err(EncodingError::DuplicateDelegator));
}

fn read_u32(b: &[u8], at: usize) -> usize {
    u32::from_le_bytes([b[at], b[at + 1], b[at + 2], b[at + 3]]) as usize
}

fn fields(b: &[u8]) -> Vec<Vec<u8>> {
    let total = read_u32(b, 0);
    assert_eq!(total, b.len());
    if total == 4 {
        return vec![];
    }
    let first = read_u32(b, 4);
    let n = first / 4 - 1;
    let mut out = Vec::new();
    for i in 0..n {
        let start = read_u32(b, 4 + 4 * i);
        let end = if i + 1 < n { read_u32(b, 8 + 4 * i) } else { total };
        out.push(b[start..end].to_vec());
    }
    out
}

fn decode_groups(witness: &[u8]) -> Vec<StakeGroupInfo> {
    let parsed = packed::WitnessArgs::from_slice(witness).unwrap();
    let payload = parsed.input_type().to_opt().unwrap().raw_data().to_vec();
    let top = fields(&payload);
    assert_eq!(top[0], vec![0u8]);
    let update = fields(&top[1]);
    fields(&update[0])
        .iter()
        .map(|g| {
            let f = fields(g);
            let infos = fields(&f[1])
                .iter()
                .map(|d| {
                    let d = fields(d);
                    DelegateInfo {
                        delegator_addr: d[0].clone().try_into().unwrap(),
                        amount: u128::from_le_bytes(d[1].clone().try_into().unwrap()),
                    }
                })
                .collect();
            StakeGroupInfo {
                staker: f[0].clone().try_into().unwrap(),
                delegate_infos: infos,
                delegate_old_epoch_proof: f[2][4..].to_vec(),
                delegate_new_epoch_proof: f[3][4..].to_vec(),
            }
        })
        .collect()
}

#[test]
fn smt_witness_round_trip_keeps_order() {
    let groups = vec![
        StakeGroupInfo {
            staker: [9; 20],
            delegate_old_epoch_proof: vec![1, 2, 3],
            delegate_new_epoch_proof: vec![4],
            delegate_infos: vec![
                DelegateInfo { delegator_addr: [2; 20], amount: 500 },
                DelegateInfo { delegator_addr: [1; 20], amount: u128::MAX },
            ],
        },
        StakeGroupInfo {
            staker: [3; 20],
            delegate_old_epoch_proof: vec![],
            delegate_new_epoch_proof: vec![7, 7],
            delegate_infos: vec![],
        },
    ];
    let w = DelegateWitness::smt_witness(groups.clone()).unwrap();
    assert_eq!(decode_groups(&w), groups);
}

#[test]
fn get_cell_absent_single_and_ambiguous() {
    let lock = script(1);
    let ty = script(2);
    let other = cell(0, script(3), Some(ty.clone()));
    assert_eq!(Delegate::get_cell(vec![other.clone()], &lock, &ty), Ok(None));
    let hit = cell(1, lock.clone(), Some(ty.clone()));
    assert_eq!(Delegate::get_cell(vec![other.clone(), hit.clone()], &lock, &ty), Ok(Some(hit.clone())));
}

#[test]
fn get_cell_with_two_matches_is_lookup_error() {
    let lock = script(1);
    let ty = script(2);
    let a = cell(1, lock.clone(), Some(ty.clone()));
    let b = cell(2, lock.clone(), Some(ty.clone()));
    assert_eq!(Delegate::get_cell(vec![a, b], &lock, &ty), Err(LookupError::Ambiguous));
}

#[test]
fn get_cell_by_type_needs_exactly_one() {
    let ty = script(2);
    assert_eq!(Delegate::get_requirement_cell(vec![], &ty), Err(LookupError::NotFound));
    let a = cell(1, script(5), Some(ty.clone()));
    let b = cell(2, script(6), None);
    assert_eq!(Delegate::get_smt_cell(vec![b.clone(), a.clone()], &ty), Ok(a.clone()));
    assert_eq!(Delegate::get_cell_by_type(vec![a.clone(), b, a], &ty), Err(LookupError::Ambiguous));
}

#[test]
fn smt_cell_dep_points_at_tree_cell() {
    let ctx = context(NetworkType::Testnet, 10);
    let ty = Delegate::smt_type(&ctx, &[8; 32]);
    let c = cell(4, script(5), Some(ty));
    let dep = Delegate::smt_cell_dep(&ctx, &[8; 32], vec![c]).unwrap();
    assert_eq!(dep.out_point.index, 4);
    assert_eq!(dep.dep_type, 0);
    assert_eq!(Delegate::smt_cell_dep(&ctx, &[9; 32], vec![]), Err(LookupError::NotFound));
}

#[test]
fn item_reads_little_endian_fields() {
    let mut total = [0u8; 16];
    total[0] = 0x34;
    total[1] = 0x12;
    let mut amount = [0u8; 16];
    amount[15] = 1;
    let d = DelegateInfoDelta {
        staker: [5; 20],
        total_amount: total,
        is_increase: 1,
        amount,
        inauguration_epoch: [2, 1, 0, 0, 0, 0, 0, 0],
    };
    let item = Delegate::item(&d);
    assert_eq!(item.staker, [5; 20]);
    assert_eq!(item.total_amount, 0x1234);
    assert!(item.is_increase);
    assert_eq!(item.amount, 1u128 << 120);
    assert_eq!(item.inauguration_epoch, 0x102);
    assert_eq!(read_le(&[0xff; 16]), u128::MAX);
    assert_eq!(read_le(&[]), 0);
    let flag_off = DelegateInfoDelta { is_increase: 0, ..d };
    assert!(!Delegate::item(&flag_off).is_increase);
}

#[test]
fn polling_commits_within_budget() {
    let policy = RetryPolicy { max_attempts: 1000, delay: 10 };
    assert_eq!(policy.next(1, TxStatus::Pending), PollAction::Wait(10));
    assert_eq!(policy.next(3, TxStatus::Committed), PollAction::Done(ConfirmOutcome::Committed));
}

#[test]
fn polling_times_out_without_commit() {
    let policy = RetryPolicy { max_attempts: 5, delay: 1 };
    let mut attempt = 1u64;
    let outcome = loop {
        match policy.next(attempt, TxStatus::Pending) {
            PollAction::Done(o) => break o,
            PollAction::Wait(_) => attempt += 1,
        }
    };
    assert_eq!(outcome, ConfirmOutcome::Timeout);
    assert_eq!(attempt, 5);
}
