use alliance_nft_collection::errors::ContractError;
use alliance_nft_collection::execute::{
    try_alliance_claim_rewards, try_alliance_delegate, try_alliance_redelegate,
    try_alliance_undelegate, try_breaknft, try_mint, update_reward_callback, CoinValue,
    Delegation, OutboundMsg, Redelegation,
};
use alliance_nft_collection::query::query_token_info;
use alliance_nft_collection::state::{PoolState, TokenEntry};

fn s(x: &str) -> String {
    x.to_string()
}

fn delegate(
    pool: &mut PoolState,
    validator: &str,
    amount: u128,
) -> Result<Vec<OutboundMsg>, ContractError> {
    try_alliance_delegate(
        pool,
        &s("owner"),
        &s("owner"),
        &s("pool"),
        &s("asset"),
        &vec![Delegation { validator: s(validator), amount }],
    )
}

#[test]
fn mint_and_query_nft() {
    let mut pool = PoolState::new();
    try_mint(&mut pool, &s("1"));
    assert_eq!(pool.num_active_nfts, 1);
    let info = query_token_info(&pool, &s("1"));
    assert!(!info.broken);
    assert_eq!(info.rewards_left, 0);
}

#[test]
fn break_nft_without_rewards() {
    let mut pool = PoolState::new();
    try_mint(&mut pool, &s("1"));
    let msgs = try_breaknft(&mut pool, &s("1"), &s("owner"), &s("owner")).unwrap();
    assert_eq!(msgs, vec![]);
    assert_eq!(pool.num_active_nfts, 0);
    let info = query_token_info(&pool, &s("1"));
    assert!(info.broken);
    assert_eq!(info.rewards_left, 0);
}

#[test]
fn break_nft_invalid() {
    let mut pool = PoolState::new();
    try_mint(&mut pool, &s("1"));

    // Cannot break as a different owner.
    let err = try_breaknft(&mut pool, &s("1"), &s("owner"), &s("owner2")).unwrap_err();
    assert_eq!(
        err,
        ContractError::Unauthorized { actual: s("owner2"), expected: s("owner") }
    );
    assert_eq!(pool.num_active_nfts, 1);

    try_breaknft(&mut pool, &s("1"), &s("owner"), &s("owner")).unwrap();

    // Cannot break a broken token; the failed call changes nothing.
    let err = try_breaknft(&mut pool, &s("1"), &s("owner"), &s("owner")).unwrap_err();
    assert_eq!(err, ContractError::AlreadyBroken);
    assert_eq!(pool.num_active_nfts, 0);
    assert!(query_token_info(&pool, &s("1")).broken);
}

fn run_claim_cycle(pool: &mut PoolState, balance_before: u128, delta: u128) {
    let msgs =
        try_alliance_claim_rewards(pool, &s("pool"), &s("asset"), &vec![], balance_before)
            .unwrap();
    assert_eq!(
        msgs.last().unwrap(),
        &OutboundMsg::SettleCallback { contract_addr: s("pool") }
    );
    update_reward_callback(pool, &s("pool"), &s("pool"), balance_before + delta).unwrap();
}

#[test]
fn scenario_two_tokens_accrual() {
    let mut pool = PoolState::new();
    try_mint(&mut pool, &s("X"));
    try_mint(&mut pool, &s("Y"));
    assert_eq!(pool.num_active_nfts, 2);

    run_claim_cycle(&mut pool, 0, 500_000_000);
    assert_eq!(pool.reward_balance, 250_000_000);
    assert_eq!(pool.temp_balance, None);

    let msgs = try_breaknft(&mut pool, &s("X"), &s("owner"), &s("owner")).unwrap();
    assert_eq!(
        msgs,
        vec![OutboundMsg::Transfer {
            to_address: s("owner"),
            denom: s("uluna"),
            amount: 250_000_000,
        }]
    );
    assert_eq!(pool.num_active_nfts, 1);

    run_claim_cycle(&mut pool, 250_000_000, 500_000_000);
    assert_eq!(pool.reward_balance, 750_000_000);

    // The broken token accrues nothing further.
    assert_eq!(query_token_info(&pool, &s("X")).rewards_left, 0);
    assert_eq!(query_token_info(&pool, &s("Y")).rewards_left, 750_000_000);

    let msgs = try_breaknft(&mut pool, &s("Y"), &s("owner"), &s("owner")).unwrap();
    assert_eq!(
        msgs,
        vec![OutboundMsg::Transfer {
            to_address: s("owner"),
            denom: s("uluna"),
            amount: 750_000_000,
        }]
    );
    assert_eq!(pool.num_active_nfts, 0);
}

#[test]
fn scenario_claim_without_active_nfts() {
    let mut pool = PoolState::new();
    let err = try_alliance_claim_rewards(&mut pool, &s("pool"), &s("asset"), &vec![], 0)
        .unwrap_err();
    assert_eq!(err, ContractError::NoActiveNfts);
    assert_eq!(pool.temp_balance, None);
}

#[test]
fn scenario_empty_undelegation_batch() {
    let mut pool = PoolState::new();
    delegate(&mut pool, "v1", 100).unwrap();
    let err = try_alliance_undelegate(
        &mut pool,
        &s("owner"),
        &s("owner"),
        &s("pool"),
        &s("asset"),
        &vec![],
    )
    .unwrap_err();
    assert_eq!(err, ContractError::EmptyDelegationBatch);
    let entries = pool.list_vals();
    assert_eq!(entries.len(), 1);
    assert_eq!(entries[0].delegated_amount, 100);
}

#[test]
fn scenario_second_claim_while_pending() {
    let mut pool = PoolState::new();
    try_mint(&mut pool, &s("1"));
    try_alliance_claim_rewards(&mut pool, &s("pool"), &s("asset"), &vec![], 40).unwrap();
    assert_eq!(pool.temp_balance, Some(40));
    let err = try_alliance_claim_rewards(&mut pool, &s("pool"), &s("asset"), &vec![], 40)
        .unwrap_err();
    assert_eq!(err, ContractError::ClaimAlreadyInProgress);
    assert_eq!(pool.temp_balance, Some(40));
}

#[test]
fn reduce_insufficient_stake() {
    let mut pool = PoolState::new();
    pool.upsert_val(&s("v1"), 100);
    let err = pool.reduce_val_stake(&s("v1"), 150).unwrap_err();
    assert_eq!(err, ContractError::InsufficientStake);
    let entries = pool.list_vals();
    assert_eq!(entries.len(), 1);
    assert_eq!(entries[0].validator, s("v1"));
    assert_eq!(entries[0].delegated_amount, 100);

    // Reducing to exactly zero removes the entry.
    pool.reduce_val_stake(&s("v1"), 100).unwrap();
    assert_eq!(pool.list_vals().len(), 0);

    // Reducing an absent validator by a positive amount also fails.
    let err = pool.reduce_val_stake(&s("v1"), 1).unwrap_err();
    assert_eq!(err, ContractError::InsufficientStake);
}

#[test]
fn ledger_keeps_ascending_order() {
    let mut pool = PoolState::new();
    pool.upsert_val(&s("valc"), 3);
    pool.upsert_val(&s("vala"), 1);
    pool.upsert_val(&s("valb"), 2);
    pool.upsert_val(&s("vala"), 10);
    let entries = pool.list_vals();
    let pairs: Vec<(String, u128)> = entries
        .iter()
        .map(|e| (e.validator.clone(), e.delegated_amount))
        .collect();
    assert_eq!(
        pairs,
        vec![(s("vala"), 11), (s("valb"), 2), (s("valc"), 3)]
    );
}

#[test]
fn settle_rejected_for_strangers_and_regressions() {
    let mut pool = PoolState::new();
    try_mint(&mut pool, &s("1"));
    try_alliance_claim_rewards(&mut pool, &s("pool"), &s("asset"), &vec![], 100).unwrap();

    let err = update_reward_callback(&mut pool, &s("pool"), &s("anyone"), 200).unwrap_err();
    assert_eq!(
        err,
        ContractError::Unauthorized { actual: s("anyone"), expected: s("pool") }
    );
    assert_eq!(pool.temp_balance, Some(100));

    // A balance below the recorded one is a protocol violation.
    let err = update_reward_callback(&mut pool, &s("pool"), &s("pool"), 50).unwrap_err();
    assert_eq!(err, ContractError::SettlementBalanceRegression);
    assert_eq!(pool.temp_balance, Some(100));
    assert_eq!(pool.reward_balance, 0);

    update_reward_callback(&mut pool, &s("pool"), &s("pool"), 200).unwrap();
    assert_eq!(pool.reward_balance, 100);
}

#[test]
fn settle_truncates_per_token_increment() {
    let mut pool = PoolState::new();
    try_mint(&mut pool, &s("a"));
    try_mint(&mut pool, &s("b"));
    try_mint(&mut pool, &s("c"));
    run_claim_cycle(&mut pool, 0, 100);
    // 100 / 3 truncates; three claims drawn against the increment stay
    // within the settled delta.
    assert_eq!(pool.reward_balance, 33);
    assert!(3 * pool.reward_balance <= 100);
}

#[test]
fn mint_after_settle_starts_at_zero() {
    let mut pool = PoolState::new();
    try_mint(&mut pool, &s("1"));
    run_claim_cycle(&mut pool, 0, 500);
    assert_eq!(pool.reward_balance, 500);

    // A token minted and broken with no settle in between claims nothing.
    try_mint(&mut pool, &s("2"));
    assert_eq!(query_token_info(&pool, &s("2")).rewards_left, 0);
    let msgs = try_breaknft(&mut pool, &s("2"), &s("owner"), &s("owner")).unwrap();
    assert_eq!(msgs, vec![]);
}

#[test]
fn claim_observes_balance_net_of_sent_funds() {
    let mut pool = PoolState::new();
    try_mint(&mut pool, &s("1"));
    let funds = vec![
        CoinValue { denom: s("other"), amount: 5 },
        CoinValue { denom: s("uluna"), amount: 30 },
    ];
    try_alliance_claim_rewards(&mut pool, &s("pool"), &s("asset"), &funds, 100).unwrap();
    // The 30 uluna bundled into the call do not count as claimed rewards.
    assert_eq!(pool.temp_balance, Some(70));
    update_reward_callback(&mut pool, &s("pool"), &s("pool"), 170).unwrap();
    assert_eq!(pool.reward_balance, 100);
}

#[test]
fn delegate_requires_owner() {
    let mut pool = PoolState::new();
    let err = try_alliance_delegate(
        &mut pool,
        &s("user"),
        &s("owner"),
        &s("pool"),
        &s("asset"),
        &vec![Delegation { validator: s("v1"), amount: 5 }],
    )
    .unwrap_err();
    assert_eq!(
        err,
        ContractError::Unauthorized { actual: s("user"), expected: s("owner") }
    );
    assert_eq!(pool.list_vals().len(), 0);
}

#[test]
fn redelegate_moves_stake_in_order() {
    let mut pool = PoolState::new();
    delegate(&mut pool, "v1", 100).unwrap();
    let msgs = try_alliance_redelegate(
        &mut pool,
        &s("owner"),
        &s("owner"),
        &s("pool"),
        &s("asset"),
        &vec![
            Redelegation { src_validator: s("v1"), dst_validator: s("v2"), amount: 40 },
            Redelegation { src_validator: s("v2"), dst_validator: s("v3"), amount: 40 },
        ],
    )
    .unwrap();
    assert_eq!(msgs.len(), 2);
    let pairs: Vec<(String, u128)> = pool
        .list_vals()
        .iter()
        .map(|e| (e.validator.clone(), e.delegated_amount))
        .collect();
    assert_eq!(pairs, vec![(s("v1"), 60), (s("v3"), 40)]);
}

#[test]
fn redelegate_insufficient_stake_rolls_back() {
    let mut pool = PoolState::new();
    delegate(&mut pool, "v1", 100).unwrap();
    let err = try_alliance_redelegate(
        &mut pool,
        &s("owner"),
        &s("owner"),
        &s("pool"),
        &s("asset"),
        &vec![
            Redelegation { src_validator: s("v1"), dst_validator: s("v2"), amount: 60 },
            Redelegation { src_validator: s("v1"), dst_validator: s("v2"), amount: 60 },
        ],
    )
    .unwrap_err();
    assert_eq!(err, ContractError::InsufficientStake);
    // The whole batch is discarded, including its first, feasible order.
    let pairs: Vec<(String, u128)> = pool
        .list_vals()
        .iter()
        .map(|e| (e.validator.clone(), e.delegated_amount))
        .collect();
    assert_eq!(pairs, vec![(s("v1"), 100)]);
}

#[test]
fn undelegate_insufficient_stake_rolls_back() {
    let mut pool = PoolState::new();
    delegate(&mut pool, "v1", 100).unwrap();
    delegate(&mut pool, "v2", 50).unwrap();
    let err = try_alliance_undelegate(
        &mut pool,
        &s("owner"),
        &s("owner"),
        &s("pool"),
        &s("asset"),
        &vec![
            Delegation { validator: s("v1"), amount: 30 },
            Delegation { validator: s("v2"), amount: 51 },
        ],
    )
    .unwrap_err();
    assert_eq!(err, ContractError::InsufficientStake);
    let pairs: Vec<(String, u128)> = pool
        .list_vals()
        .iter()
        .map(|e| (e.validator.clone(), e.delegated_amount))
        .collect();
    assert_eq!(pairs, vec![(s("v1"), 100), (s("v2"), 50)]);
}

#[test]
fn error_descriptions_name_the_variant() {
    assert_eq!(ContractError::NoActiveNfts.describe(), "no active nfts");
    assert_eq!(ContractError::AlreadyBroken.describe(), "already broken");
    assert_eq!(
        ContractError::ClaimAlreadyInProgress.describe(),
        "claim already in progress"
    );
    assert_eq!(
        ContractError::SettlementBalanceRegression.describe(),
        "settlement balance regression"
    );
    assert_eq!(
        ContractError::ActiveCountUnderflow.describe(),
        "active count underflow"
    );
    assert_eq!(
        ContractError::EmptyDelegationBatch.describe(),
        "empty delegation batch"
    );
    assert_eq!(ContractError::InsufficientStake.describe(), "insufficient stake");
    assert_eq!(
        ContractError::Unauthorized { actual: s("a"), expected: s("b") }.describe(),
        "unauthorized"
    );
}

#[test]
fn break_detects_active_count_underflow() {
    // A state whose active count disagrees with its token table never
    // arises through the library's own operations; the break command still
    // detects the inconsistency instead of wrapping below zero.
    let mut pool = PoolState {
        vals: vec![],
        reward_balance: 0,
        num_active_nfts: 0,
        temp_balance: None,
        nfts: vec![TokenEntry { token_id: s("1"), reward_snapshot: 0, broken: false }],
    };
    let err = try_breaknft(&mut pool, &s("1"), &s("owner"), &s("owner")).unwrap_err();
    assert_eq!(err, ContractError::ActiveCountUnderflow);
    assert_eq!(pool.num_active_nfts, 0);
    assert!(!pool.nfts[0].broken);
}
