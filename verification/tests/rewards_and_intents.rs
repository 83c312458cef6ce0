use solen_consensus::epoch::StakingValidator;
use solen_consensus::intents::{
    builtin_solver_allowed, choose_solution, fulfill_operation, is_encodable, Constraint, Intent,
    Solution,
};
use solen_consensus::ledger::{
    balance_of, credit_account, debit_account, distribute_epoch_rewards, Balance,
};
use solen_consensus::rewards::{
    credited_balance, plan_epoch_rewards, Delegation, REWARD_PER_EPOCH,
};
use solen_consensus::slashing::{queue_evidence, slash_operation, SlashingEvidence, SlashingReason};
use solen_consensus::types::{Action, UserOperation};

const POOL: [u8; 32] = [0xCC; 32];

fn staker(n: u8, stake: u128, delegated: u128, bps: u64) -> StakingValidator {
    StakingValidator {
        id: [n; 32],
        is_active: true,
        total_stake: stake,
        total_delegated: delegated,
        commission_rate_bps: bps,
    }
}

fn place(n: u8, validator: u8, amount: u128) -> Delegation {
    Delegation {
        delegator: [n; 32],
        validator: [validator; 32],
        amount,
    }
}

#[test]
fn rewards_split_by_stake_delegation_and_commission() {
    // The first has 300 of 400, of which 100 delegated at ten percent.
    let staking = vec![staker(1, 300, 100, 1_000), staker(2, 100, 0, 0)];
    let delegations = vec![place(11, 1, 75), place(12, 1, 25), place(13, 9, 5)];
    let plan = plan_epoch_rewards(&POOL, 1_000, &staking, &delegations).unwrap();
    assert_eq!(plan.deducted, 1_000);
    let credits: Vec<(u8, u128, bool)> = plan
        .credits
        .iter()
        .map(|c| (c.account[0], c.amount, c.delegated))
        .collect();
    // Share 750, of which 250 by delegation: 25 commission, 225 to the delegators.
    assert_eq!(
        credits,
        vec![
            (1, 525, false),
            (11, 168, true),
            (12, 56, true),
            (2, 250, false)
        ]
    );
    let paid: u128 = plan.credits.iter().map(|c| c.amount).sum();
    assert!(paid <= plan.deducted);
    let receipt = plan.receipt.unwrap();
    assert_eq!(receipt.sender, POOL);
    assert_eq!(receipt.auth_method, "system");
    assert_eq!(receipt.events.len(), 4);
    assert_eq!(receipt.events[0].topic, b"epoch_reward".to_vec());
    assert_eq!(receipt.events[1].topic, b"delegator_reward".to_vec());
    let mut data = vec![11u8; 32];
    data.extend_from_slice(&168u128.to_le_bytes());
    assert_eq!(receipt.events[1].data, data);
}

fn balances(list: &[(u8, u128)]) -> Vec<Balance> {
    list.iter()
        .map(|(n, amount)| Balance {
            account: [*n; 32],
            amount: *amount,
        })
        .collect()
}

#[test]
fn rewards_move_from_the_pool_to_the_accounts() {
    let staking = vec![staker(1, 300, 100, 1_000), staker(2, 100, 0, 0)];
    let delegations = vec![place(11, 1, 75), place(12, 1, 25)];
    // The second delegator has no account.
    let mut held = balances(&[(0xCC, 1_000), (1, 5), (2, 0), (11, 7), (50, 9)]);
    let receipt = distribute_epoch_rewards(&POOL, &mut held, &staking, &delegations).unwrap();
    assert_eq!(receipt.events.len(), 4);
    assert_eq!(
        held,
        balances(&[(0xCC, 0), (1, 530), (2, 250), (11, 175), (50, 9)])
    );
    let sum: u128 = held.iter().map(|b| b.amount).sum();
    assert!(sum <= 1_021);
    // The pool is empty now.
    let before = held.clone();
    assert!(distribute_epoch_rewards(&POOL, &mut held, &staking, &delegations).is_none());
    assert_eq!(held, before);
    // A full pool pays an epoch's worth.
    let mut rich = balances(&[(1, 0), (0xCC, REWARD_PER_EPOCH + 8)]);
    distribute_epoch_rewards(&POOL, &mut rich, &vec![staker(1, 10, 0, 0)], &vec![]).unwrap();
    assert_eq!(rich, balances(&[(1, REWARD_PER_EPOCH), (0xCC, 8)]));
    // Nobody stakes.
    assert!(distribute_epoch_rewards(&POOL, &mut rich, &vec![], &vec![]).is_none());
    assert_eq!(rich, balances(&[(1, REWARD_PER_EPOCH), (0xCC, 8)]));
}

#[test]
fn rewards_multiply_only_what_is_paid() {
    // A pool of five, a stake that just fits, and a huge delegation that earns nothing
    // because its validator is not active.
    let whale = u128::MAX / 5;
    let mut idle = staker(2, 10, 10, 0);
    idle.is_active = false;
    let staking = vec![staker(1, whale, 0, 0), idle];
    let delegations = vec![place(11, 2, u128::MAX), place(12, 9, u128::MAX)];
    let plan = plan_epoch_rewards(&POOL, 5, &staking, &delegations).unwrap();
    assert_eq!(plan.deducted, 5);
    let credits: Vec<(u8, u128)> = plan.credits.iter().map(|c| (c.account[0], c.amount)).collect();
    assert_eq!(credits, vec![(1, 5)]);
    // An empty pool multiplies nothing.
    let all = vec![staker(1, u128::MAX, 0, 0)];
    assert!(plan_epoch_rewards(&POOL, 0, &all, &vec![]).is_none());
}

#[test]
fn balances_stay_within_bounds() {
    let mut held = balances(&[(1, 3), (2, u128::MAX - 1)]);
    credit_account(&mut held, &[1; 32], 4);
    credit_account(&mut held, &[2; 32], 4);
    credit_account(&mut held, &[3; 32], 4);
    assert_eq!(held, balances(&[(1, 7), (2, u128::MAX)]));
    debit_account(&mut held, &[1; 32], 2);
    debit_account(&mut held, &[2; 32], u128::MAX);
    assert_eq!(held, balances(&[(1, 5), (2, 0)]));
    debit_account(&mut held, &[1; 32], 6);
    assert_eq!(balance_of(&held, &[1; 32]), 0);
    assert_eq!(balance_of(&held, &[9; 32]), 0);
    assert_eq!(balance_of(&balances(&[(1, 2), (3, 4)]), &[3; 32]), 4);
}

#[test]
fn rewards_stop_with_the_pool_and_are_capped() {
    let staking = vec![staker(1, 10, 0, 0)];
    assert!(plan_epoch_rewards(&POOL, 0, &staking, &vec![]).is_none());
    assert!(plan_epoch_rewards(&POOL, 5, &vec![], &vec![]).is_none());
    let idle = StakingValidator {
        is_active: false,
        ..staker(1, 10, 0, 0)
    };
    assert!(plan_epoch_rewards(&POOL, 5, &vec![idle], &vec![]).is_none());
    let plan = plan_epoch_rewards(&POOL, u128::MAX, &staking, &vec![]).unwrap();
    assert_eq!(plan.deducted, 31_700_000_000);
    assert_eq!(plan.credits[0].amount, REWARD_PER_EPOCH);
    // Shares that come to nothing leave no trace.
    let tiny = vec![staker(1, 1, 0, 0), staker(2, 999, 0, 0)];
    let plan = plan_epoch_rewards(&POOL, 1, &tiny, &vec![]).unwrap();
    assert!(plan.credits.is_empty());
    assert!(plan.receipt.is_none());
}

#[test]
fn credits_saturate() {
    assert_eq!(credited_balance(3, 4), 7);
    assert_eq!(credited_balance(u128::MAX - 1, 4), u128::MAX);
}

#[test]
fn slashing_calls_carry_offender_and_penalty() {
    let evidence = SlashingEvidence {
        offender: [4; 32],
        reason: SlashingReason::DoubleSign { height: 3 },
        penalty_bps: 500,
    };
    let op = slash_operation([1; 32], [2; 32], &evidence);
    assert_eq!(op.sender, [1; 32]);
    assert_eq!(op.nonce, 0);
    assert_eq!(op.max_fee, 0);
    assert_eq!(op.signature, vec![0xFF]);
    match &op.actions[0] {
        Action::Call {
            target,
            method,
            args,
        } => {
            assert_eq!(target, &[2; 32]);
            assert_eq!(method, "slash");
            let mut expected = vec![4u8; 32];
            expected.extend_from_slice(&500u64.to_le_bytes());
            assert_eq!(args, &expected);
        }
        other => panic!("unexpected action {:?}", other),
    }
    let mut queue = vec![];
    queue_evidence(&mut queue, evidence);
    queue_evidence(
        &mut queue,
        SlashingEvidence {
            penalty_bps: 1,
            ..evidence
        },
    );
    assert_eq!(queue.len(), 1);
    assert_eq!(queue[0].penalty_bps, 500);
}

fn intent(constraints: Vec<Constraint>) -> Intent {
    Intent {
        id: 77,
        sender: [5; 32],
        max_fee: 9,
        expiry_height: 600,
        constraints,
    }
}

fn solution(solver: u8) -> Solution {
    let op = |actions: Vec<Action>| UserOperation {
        sender: [6; 32],
        nonce: 0,
        actions,
        max_fee: 0,
        signature: vec![],
    };
    Solution {
        solver: [solver; 32],
        claimed_tip: 3,
        operations: vec![
            op(vec![
                Action::Transfer {
                    to: [7; 32],
                    amount: 10,
                },
                Action::Other { payload: vec![1] },
            ]),
            op(vec![Action::Transfer {
                to: [8; 32],
                amount: 11,
            }]),
        ],
    }
}

#[test]
fn external_solutions_come_first_and_the_builtin_waits() {
    // Open since height 100.
    assert!(!builtin_solver_allowed(101, 600));
    assert!(builtin_solver_allowed(102, 600));
    assert!(!builtin_solver_allowed(1, 20));
    assert!(builtin_solver_allowed(2, 20));
    let pick = |external: bool, builtin: bool, height: u64| {
        choose_solution(
            if external { Some(solution(1)) } else { None },
            if builtin { Some(solution(2)) } else { None },
            height,
            600,
        )
        .map(|s| s.solver[0])
    };
    assert_eq!(pick(true, true, 500), Some(1));
    assert_eq!(pick(true, true, 0), Some(1));
    assert_eq!(pick(false, true, 102), Some(2));
    assert_eq!(pick(false, true, 101), None);
    assert_eq!(pick(false, false, 500), None);
}

#[test]
fn fulfil_arguments_have_the_documented_layout() {
    let constraints = vec![
        Constraint::MinBalance {
            account: [1; 32],
            min_amount: 2,
        },
        Constraint::MaxSpend {
            account: [3; 32],
            max_amount: 4,
        },
        Constraint::RequireTransfer {
            from: [5; 32],
            to: [6; 32],
            min_amount: 7,
        },
        Constraint::RequireCall {
            target: [8; 32],
            method: b"swap".to_vec(),
        },
        Constraint::CrossChainSwap {
            input_amount: 9,
            min_output: 10,
            destination_chain: 11,
            destination_address: vec![12; 20],
            output_token: vec![13; 3],
        },
        Constraint::Custom,
    ];
    let i = intent(constraints);
    let s = solution(1);
    assert!(is_encodable(&i, &s));
    let op = fulfill_operation([0xBB; 32], &i, &s);
    assert_eq!(op.sender, [5; 32]);
    assert_eq!(op.max_fee, 9);
    assert_eq!(op.signature, vec![0xFF]);

    let mut expected = 77u64.to_le_bytes().to_vec();
    expected.extend_from_slice(&[1; 32]);
    expected.extend_from_slice(&3u128.to_le_bytes());
    expected.extend_from_slice(&2u32.to_le_bytes());
    for (to, amount) in [(7u8, 10u128), (8, 11)] {
        expected.extend_from_slice(&[to; 32]);
        expected.extend_from_slice(&amount.to_le_bytes());
    }
    expected.extend_from_slice(&6u32.to_le_bytes());
    expected.push(0);
    expected.extend_from_slice(&[1; 32]);
    expected.extend_from_slice(&2u128.to_le_bytes());
    expected.push(1);
    expected.extend_from_slice(&[3; 32]);
    expected.extend_from_slice(&4u128.to_le_bytes());
    expected.push(2);
    expected.extend_from_slice(&[5; 32]);
    expected.extend_from_slice(&[6; 32]);
    expected.extend_from_slice(&7u128.to_le_bytes());
    expected.push(3);
    expected.extend_from_slice(&[8; 32]);
    expected.extend_from_slice(&4u32.to_le_bytes());
    expected.extend_from_slice(b"swap");
    expected.push(4);
    expected.extend_from_slice(&9u128.to_le_bytes());
    expected.extend_from_slice(&10u128.to_le_bytes());
    expected.extend_from_slice(&11u64.to_le_bytes());
    expected.extend_from_slice(&[12; 20]);
    expected.extend_from_slice(&[13; 3]);
    match &op.actions[0] {
        Action::Call {
            target,
            method,
            args,
        } => {
            assert_eq!(target, &[0xBB; 32]);
            assert_eq!(method, "fulfill");
            assert_eq!(args, &expected);
        }
        other => panic!("unexpected action {:?}", other),
    }
}
