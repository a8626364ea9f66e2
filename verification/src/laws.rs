//! The accrual laws of the core, proved over the state model and the
//! transition functions that the commands' contracts are stated with.

use vstd::prelude::*;
use vstd::arithmetic::div_mod::{
    lemma_div_pos_is_pos, lemma_fundamental_div_mod, lemma_mod_division_less_than_divisor,
};
use vstd::arithmetic::mul::lemma_mul_is_distributive_add_other_way;
use crate::state::{
    PoolModel, TokenModel, active_count, has_token, is_broken, token_index, lemma_token_at,
};
use crate::execute::{mint_model, break_claimable, break_model, settle_model};

verus! {

/// Sum of what every non-broken token could claim against accumulator value
/// `accum`.
pub open spec fn claimable_sum(nfts: Seq<TokenModel>, accum: u128) -> int
    decreases nfts.len(),
{
    if nfts.len() == 0 {
        0
    } else {
        (if nfts[0].broken {
            0int
        } else {
            accum - nfts[0].reward_snapshot
        }) + claimable_sum(nfts.drop_first(), accum)
    }
}

/// Raising the accumulator raises the total claimable by exactly the rise
/// times the number of non-broken tokens.
proof fn lemma_claimable_sum_shift(nfts: Seq<TokenModel>, a1: u128, a2: u128)
    ensures
        claimable_sum(nfts, a2) - claimable_sum(nfts, a1) == active_count(nfts) * (a2 - a1),
    decreases nfts.len(),
{
    if nfts.len() == 0 {
        assert(active_count(nfts) * (a2 - a1) == 0) by (nonlinear_arith)
            requires
                active_count(nfts) == 0,
        ;
    } else {
        lemma_claimable_sum_shift(nfts.drop_first(), a1, a2);
        let rest = active_count(nfts.drop_first()) as int;
        let d = a2 - a1;
        if nfts[0].broken {
            assert(claimable_sum(nfts, a2) == claimable_sum(nfts.drop_first(), a2));
            assert(claimable_sum(nfts, a1) == claimable_sum(nfts.drop_first(), a1));
            assert(active_count(nfts) == rest);
        } else {
            assert(active_count(nfts) == 1 + rest);
            lemma_mul_is_distributive_add_other_way(d, 1, rest);
            assert((1 + rest) * d == 1 * d + rest * d);
            assert(claimable_sum(nfts, a2) - claimable_sum(nfts, a1) == d + rest * d);
        }
    }
}

/// A token minted and then broken with no intervening settle claims
/// nothing: its baseline is fixed at the accumulator value it was minted
/// under.
pub proof fn lemma_mint_then_break_claims_zero(s: PoolModel, token_id: Seq<char>)
    requires
        s.wf(),
        !has_token(s.nfts, token_id),
    ensures
        break_claimable(mint_model(s, token_id), token_id) == 0,
{
    let m = mint_model(s, token_id);
    let t = TokenModel { token_id, reward_snapshot: s.reward_balance, broken: false };
    assert(m.nfts == s.nfts.push(t));
    assert(m.nfts[s.nfts.len() as int] == t);
    assert forall|i: int, j: int|
        0 <= i < j < m.nfts.len() implies m.nfts[i].token_id != m.nfts[j].token_id by {
        if j < s.nfts.len() {
            assert(s.nfts[i].token_id != s.nfts[j].token_id);
        } else {
            if m.nfts[i].token_id == token_id {
                assert(s.nfts[i].token_id == token_id);
                assert(has_token(s.nfts, token_id));
            }
        }
    }
    lemma_token_at(m.nfts, s.nfts.len() as int);
}

/// Breaking is terminal: the broken state records the token as broken, so
/// a second break of the same token fails with `AlreadyBroken` and leaves
/// the state unchanged.
pub proof fn lemma_break_is_terminal(s: PoolModel, token_id: Seq<char>)
    requires
        s.wf(),
        has_token(s.nfts, token_id),
    ensures
        is_broken(break_model(s, token_id).nfts, token_id),
{
    let i = token_index(s.nfts, token_id);
    assert(0 <= i < s.nfts.len() && s.nfts[i].token_id == token_id);
    let m = break_model(s, token_id);
    assert(forall|k: int|
        0 <= k < m.nfts.len() ==> m.nfts[k].token_id == s.nfts[k].token_id);
    assert forall|p: int, q: int|
        0 <= p < q < m.nfts.len() implies m.nfts[p].token_id != m.nfts[q].token_id by {
        assert(s.nfts[p].token_id != s.nfts[q].token_id);
    }
    lemma_token_at(m.nfts, i);
}

/// The accumulator is monotonically non-decreasing across a settle: the
/// per-token increment folded in is never negative.
pub proof fn lemma_settle_monotonic(s: PoolModel, current_balance: u128)
    requires
        s.temp_balance is Some,
        s.num_active_nfts > 0,
        current_balance >= s.temp_balance->0,
        s.reward_balance + (current_balance - s.temp_balance->0) / (s.num_active_nfts as int)
            <= u128::MAX,
    ensures
        settle_model(s, current_balance).reward_balance >= s.reward_balance,
{
    let delta = current_balance - s.temp_balance->0;
    let n = s.num_active_nfts as int;
    lemma_div_pos_is_pos(delta, n);
}

/// The truncating division bounds the total payable: with `n` active tokens
/// each claim against the new accumulator value draws exactly the settle
/// increment, and `n` of those increments never exceed the settled delta.
pub proof fn lemma_settle_total_payout_bounded(s: PoolModel, current_balance: u128)
    requires
        s.temp_balance is Some,
        s.num_active_nfts > 0,
        current_balance >= s.temp_balance->0,
        s.reward_balance + (current_balance - s.temp_balance->0) / (s.num_active_nfts as int)
            <= u128::MAX,
    ensures
        (s.num_active_nfts as int) * (settle_model(s, current_balance).reward_balance
            - s.reward_balance) <= current_balance - s.temp_balance->0,
{
    let delta = current_balance - s.temp_balance->0;
    let n = s.num_active_nfts as int;
    lemma_div_pos_is_pos(delta, n);
    lemma_fundamental_div_mod(delta, n);
    lemma_mod_division_less_than_divisor(delta, n);
    assert(settle_model(s, current_balance).reward_balance - s.reward_balance == delta / n);
    assert(delta == n * (delta / n) + (delta % n));
}

/// The total payable via per-token claims drawn against the settled
/// accumulator never exceeds the settled delta: the truncation remainder
/// stays in the pool.
pub proof fn lemma_settle_bounds_total_claims(s: PoolModel, current_balance: u128)
    requires
        s.wf(),
        s.temp_balance is Some,
        s.num_active_nfts > 0,
        current_balance >= s.temp_balance->0,
        s.reward_balance + (current_balance - s.temp_balance->0) / (s.num_active_nfts as int)
            <= u128::MAX,
    ensures
        claimable_sum(s.nfts, settle_model(s, current_balance).reward_balance) - claimable_sum(
            s.nfts,
            s.reward_balance,
        ) <= current_balance - s.temp_balance->0,
{
    let after = settle_model(s, current_balance);
    lemma_settle_total_payout_bounded(s, current_balance);
    lemma_claimable_sum_shift(s.nfts, s.reward_balance, after.reward_balance);
}

} // verus!
