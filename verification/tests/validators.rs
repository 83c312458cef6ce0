use solen_consensus::checkpoint::{
    network_of, FinalizedCheckpointStore, Network, TrustedCheckpoint, TrustedCheckpoints,
};
use solen_consensus::epoch::{
    epoch_fits, epoch_for_height, is_epoch_boundary, restake_fits, sync_stakes, sync_validators,
    EpochInputs, StakingValidator,
};
use solen_consensus::validator::{
    contains_id, is_countable, ValidatorInfo, ValidatorSet, ValidatorStatus,
};

fn id(n: u8) -> [u8; 32] {
    [n; 32]
}

fn set(stakes: &[u128]) -> ValidatorSet {
    ValidatorSet::new(
        stakes
            .iter()
            .enumerate()
            .map(|(i, s)| ValidatorInfo::new(id(i as u8 + 1), *s))
            .collect(),
    )
}

fn staker(n: u8, stake: u128) -> StakingValidator {
    StakingValidator {
        id: id(n),
        is_active: true,
        total_stake: stake,
        total_delegated: 0,
        commission_rate_bps: 0,
    }
}

#[test]
fn quorum_is_more_than_two_thirds() {
    let three = set(&[100, 100, 100]);
    assert!(!three.has_quorum(&vec![id(1), id(2)]));
    assert!(three.has_quorum(&vec![id(1), id(2), id(3)]));
    let five = set(&[100, 100, 100, 100, 100]);
    assert!(!five.has_quorum(&vec![id(1), id(2), id(3)]));
    assert!(five.has_quorum(&vec![id(1), id(2), id(3), id(4)]));
    // By stake, not by heads.
    let uneven = set(&[67, 33]);
    assert!(uneven.has_quorum(&vec![id(1)]));
    assert!(!set(&[66, 34]).has_quorum(&vec![id(1)]));
}

#[test]
fn stake_counts_each_active_validator_once() {
    let mut vs = set(&[10, 20, 30]);
    assert_eq!(vs.stake_of(&vec![id(1), id(1), id(2), id(9)]), 30);
    assert_eq!(vs.total_active_stake(), 60);
    vs.validators[2].status = ValidatorStatus::Jailed;
    assert_eq!(vs.stake_of(&vec![id(1), id(2), id(3)]), 30);
    assert_eq!(vs.total_active_stake(), 30);
    assert_eq!(vs.active_count(), 2);
    assert!(!vs.is_active_validator(&id(3)));
    assert!(!set(&[]).has_quorum(&vec![]));
}

#[test]
fn disjoint_quorums_do_not_exist() {
    let vs = set(&[40, 30, 20, 10]);
    for mask in 0u32..16 {
        let (mut inside, mut outside) = (vec![], vec![]);
        for i in 0..4 {
            if mask >> i & 1 == 1 {
                inside.push(id(i as u8 + 1));
            } else {
                outside.push(id(i as u8 + 1));
            }
        }
        assert!(!(vs.has_quorum(&inside) && vs.has_quorum(&outside)));
    }
}

#[test]
fn setters_touch_only_their_validator() {
    let mut vs = set(&[10, 20]);
    vs.set_missed(&id(2), 5);
    vs.set_stake(&id(1), 11);
    vs.set_missed(&id(7), 9);
    assert_eq!(vs.all()[0].stake, 11);
    assert_eq!(vs.all()[0].missed_blocks, 0);
    assert_eq!(vs.all()[1].stake, 20);
    assert_eq!(vs.all()[1].missed_blocks, 5);
    assert_eq!(vs.find(&id(2)), Some(1));
    assert_eq!(vs.find(&id(7)), None);
    assert!(contains_id(&vec![id(1), id(2)], &id(2)));
    assert!(!contains_id(&vec![id(1), id(2)], &id(3)));
}

#[test]
fn countable_sets_are_distinct_and_bounded() {
    assert!(is_countable(&set(&[1, 2, 3]).validators));
    let twice = vec![ValidatorInfo::new(id(1), 1), ValidatorInfo::new(id(1), 2)];
    assert!(!is_countable(&twice));
    assert!(is_countable(&set(&[u128::MAX, 0]).validators));
    assert!(!is_countable(&set(&[u128::MAX, 1]).validators));
    assert!(restake_fits(&set(&[6, 5]), &vec![staker(1, u128::MAX - 5)]));
    assert!(!restake_fits(&set(&[6, 6]), &vec![staker(1, u128::MAX - 5)]));
    let idle = StakingValidator {
        is_active: false,
        ..staker(1, u128::MAX)
    };
    assert!(restake_fits(&set(&[6, 6]), &vec![idle]));
    let inputs = |stakes: &[u128], staking: Vec<StakingValidator>| EpochInputs {
        epoch: 1,
        validators: set(stakes).validators,
        staking,
        randomness_seed: [0; 32],
    };
    assert!(epoch_fits(&inputs(&[6], vec![staker(1, u128::MAX)])));
    assert!(!epoch_fits(&inputs(&[u128::MAX, 1], vec![])));
    assert!(!epoch_fits(&inputs(
        &[6],
        vec![staker(1, u128::MAX), staker(2, 1)]
    )));
}

#[test]
fn epochs_are_a_hundred_blocks() {
    assert_eq!(epoch_for_height(99), 0);
    assert_eq!(epoch_for_height(100), 1);
    assert!(is_epoch_boundary(100));
    assert!(!is_epoch_boundary(101));
}

#[test]
fn sync_defers_what_exceeds_a_third() {
    let mut vs = set(&[100, 100, 100, 100]);
    let staking: Vec<StakingValidator> = (1..=4)
        .map(|n| staker(n, 100))
        .chain([staker(5, 134), staker(6, 133), staker(7, 1)])
        .collect();
    // A third of 400 is 133: the fifth waits, the sixth joins, nothing is left then.
    let changed = sync_validators(&mut vs, &staking);
    assert_eq!(changed, 133);
    let ids: Vec<u8> = vs.all().iter().map(|v| v.id[0]).collect();
    assert_eq!(ids, vec![1, 2, 3, 4, 6]);
}

#[test]
fn sync_removes_and_reactivates_within_the_limit() {
    let mut vs = set(&[100, 100, 100, 100, 50]);
    vs.validators[3].status = ValidatorStatus::Jailed;
    vs.validators[3].missed_blocks = 9;
    // The first is gone from staking, the fourth is back, the third has more stake.
    let staking = vec![
        staker(2, 100),
        staker(3, 110),
        staker(4, 100),
        StakingValidator {
            is_active: false,
            ..staker(5, 50)
        },
    ];
    let changed = sync_validators(&mut vs, &staking);
    // Limit: 350 / 3 = 116. Ten for the third and a hundred for the fourth; either of
    // the others would exceed it.
    assert_eq!(changed, 110);
    let left: Vec<(u8, u128, bool, u64)> = vs
        .all()
        .iter()
        .map(|v| (v.id[0], v.stake, v.is_active(), v.missed_blocks))
        .collect();
    assert_eq!(
        left,
        vec![
            (1, 100, true, 0),
            (2, 100, true, 0),
            (3, 110, true, 0),
            (4, 100, true, 0),
            (5, 50, true, 0)
        ]
    );
    // The next epoch takes the first out.
    assert_eq!(sync_validators(&mut vs, &staking), 150);
    let ids: Vec<u8> = vs.all().iter().map(|v| v.id[0]).collect();
    assert_eq!(ids, vec![2, 3, 4]);
}

#[test]
fn sync_defers_members_that_exceed_a_third() {
    let mut vs = set(&[100, 100, 100, 100, 500]);
    vs.validators[4].status = ValidatorStatus::Jailed;
    vs.validators[4].missed_blocks = 3;
    // A third of 400 is 133. The first doubles its stake; the second and the last
    // would go beyond, and stay as they are; the third still fits.
    let staking = vec![
        staker(1, 200),
        staker(2, 0),
        staker(3, 67),
        staker(4, 100),
        staker(5, 500),
    ];
    assert_eq!(sync_validators(&mut vs, &staking), 133);
    let left: Vec<(u8, u128, bool, u64)> = vs
        .all()
        .iter()
        .map(|v| (v.id[0], v.stake, v.is_active(), v.missed_blocks))
        .collect();
    assert_eq!(
        left,
        vec![
            (1, 200, true, 0),
            (2, 100, true, 0),
            (3, 67, true, 0),
            (4, 100, true, 0),
            (5, 500, false, 3)
        ]
    );
}

#[test]
fn sync_is_unlimited_while_bootstrapping() {
    let mut vs = set(&[1, 1, 1]);
    sync_validators(&mut vs, &vec![staker(1, 5), staker(8, 1_000_000)]);
    let left: Vec<(u8, u128)> = vs.all().iter().map(|v| (v.id[0], v.stake)).collect();
    assert_eq!(left, vec![(1, 5), (8, 1_000_000)]);
    // Jailed members come back, idle ones go, whatever their stake.
    let mut vs = set(&[10, 20, 30, 40, 50]);
    for at in [1, 3, 4] {
        vs.validators[at].status = ValidatorStatus::Jailed;
    }
    let idle = StakingValidator {
        is_active: false,
        ..staker(1, 10)
    };
    sync_validators(
        &mut vs,
        &vec![idle, staker(2, 7), staker(4, u128::MAX / 2), staker(9, u128::MAX / 2)],
    );
    let left: Vec<(u8, u128, bool)> = vs
        .all()
        .iter()
        .map(|v| (v.id[0], v.stake, v.is_active()))
        .collect();
    assert_eq!(
        left,
        vec![
            (2, 7, true),
            (4, u128::MAX / 2, true),
            (9, u128::MAX / 2, true)
        ]
    );
}

#[test]
fn stakes_follow_the_contract() {
    let mut vs = set(&[1, 2]);
    let idle = StakingValidator {
        is_active: false,
        ..staker(1, 77)
    };
    sync_stakes(&mut vs, &vec![idle, staker(2, 88), staker(3, 99)]);
    let left: Vec<u128> = vs.all().iter().map(|v| v.stake).collect();
    assert_eq!(left, vec![1, 88]);
}

#[test]
fn trusted_checkpoints_name_the_expected_hash() {
    let trusted = TrustedCheckpoints {
        list: vec![TrustedCheckpoint {
            height: 10,
            block_hash: id(3),
        }],
    };
    assert_eq!(trusted.validate(10, &id(4)), Some(id(3)));
    assert_eq!(trusted.validate(10, &id(3)), None);
    assert_eq!(trusted.validate(11, &id(4)), None);
}

#[test]
fn checkpoints_finalize_on_a_quorum_of_distinct_signers() {
    let vs = set(&[100, 100, 100]);
    let mut cps = FinalizedCheckpointStore::new();
    assert!(!cps.add_attestation(id(1), vec![1], &vs));
    cps.propose_checkpoint(100, 1, id(9), id(8));
    assert!(!cps.add_attestation(id(1), vec![1], &vs));
    assert!(!cps.add_attestation(id(1), vec![2], &vs));
    assert!(!cps.add_attestation(id(7), vec![2], &vs));
    assert!(!cps.add_attestation(id(2), vec![2], &vs));
    assert!(cps.latest.is_none());
    assert!(cps.add_attestation(id(3), vec![3], &vs));
    assert!(cps.pending.is_none());
    let latest = cps.latest.as_ref().unwrap();
    assert_eq!((latest.height, latest.epoch), (100, 1));
    assert_eq!(latest.attestations.len(), 3);
    assert_eq!(cps.validate_block(100, &id(1)), Some(id(9)));
    assert_eq!(cps.validate_block(100, &id(9)), None);
    assert_eq!(cps.validate_block(101, &id(1)), None);
}

#[test]
fn chains_belong_to_networks() {
    assert_eq!(network_of(1), Network::Mainnet);
    assert_eq!(network_of(9000), Network::Testnet);
    assert_eq!(network_of(9001), Network::Testnet);
    assert_eq!(network_of(0), Network::Devnet);
    assert_eq!(network_of(9002), Network::Devnet);
}
