use tx_builder::epoch::{group_deltas, touched, EpochError, EpochProof, StakeDelta};
use tx_builder::witness::{DelegateInfo, DelegateWitness};

fn delta(staker: u8, delegator: u8, amount: u128) -> StakeDelta {
    StakeDelta { staker: [staker; 20], delegator_addr: [delegator; 20], amount }
}

fn epoch_proof(tag: u8) -> EpochProof {
    EpochProof { old_epoch_proof: vec![tag], new_epoch_proof: vec![tag, tag] }
}

#[test]
fn stakers_in_first_seen_order() {
    let ds = vec![delta(3, 1, 10), delta(1, 2, 20), delta(3, 4, 30), delta(2, 5, 40), delta(1, 6, 50)];
    assert_eq!(touched(&ds), vec![[3u8; 20], [1u8; 20], [2u8; 20]]);
    assert_eq!(touched(&vec![]), Vec::<[u8; 20]>::new());
}

#[test]
fn groups_keep_order_and_entries() {
    let ds = vec![delta(3, 1, 10), delta(1, 2, 20), delta(3, 4, 30)];
    let groups = group_deltas(&ds, vec![epoch_proof(7), epoch_proof(8)]).unwrap();
    assert_eq!(groups.len(), 2);
    assert_eq!(groups[0].staker, [3; 20]);
    assert_eq!(
        groups[0].delegate_infos,
        vec![
            DelegateInfo { delegator_addr: [1; 20], amount: 10 },
            DelegateInfo { delegator_addr: [4; 20], amount: 30 },
        ]
    );
    assert_eq!(groups[0].delegate_old_epoch_proof, vec![7]);
    assert_eq!(groups[1].staker, [1; 20]);
    assert_eq!(groups[1].delegate_new_epoch_proof, vec![8, 8]);
    assert_eq!(groups[1].delegate_infos, vec![DelegateInfo { delegator_addr: [2; 20], amount: 20 }]);
}

#[test]
fn groups_need_one_proof_per_staker() {
    let ds = vec![delta(3, 1, 10), delta(1, 2, 20)];
    assert_eq!(group_deltas(&ds, vec![epoch_proof(7)]), Err(EpochError::ProofCountMismatch));
}

#[test]
fn reordering_within_a_group_keeps_group_order() {
    let a = vec![delta(3, 1, 10), delta(1, 2, 20), delta(3, 4, 30)];
    let b = vec![delta(3, 4, 30), delta(1, 2, 20), delta(3, 1, 10)];
    let ga = group_deltas(&a, vec![epoch_proof(7), epoch_proof(8)]).unwrap();
    let gb = group_deltas(&b, vec![epoch_proof(7), epoch_proof(8)]).unwrap();
    assert_eq!(ga[0].staker, gb[0].staker);
    assert_eq!(ga[1], gb[1]);
    let mut sa = ga[0].delegate_infos.clone();
    let mut sb = gb[0].delegate_infos.clone();
    sa.sort_by_key(|d| d.delegator_addr);
    sb.sort_by_key(|d| d.delegator_addr);
    assert_eq!(sa, sb);
    assert!(DelegateWitness::smt_witness(ga).is_ok());
}
