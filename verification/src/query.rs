//! Read-only views of the token table: the broken flag and the rewards a
//! token could still claim.

use vstd::prelude::*;
use crate::state::{PoolState, PoolModel, has_token, snapshot_of, is_broken, token_find,
    lemma_token_at};

verus! {

/// What a token metadata query reports about one token.
#[derive(Debug, PartialEq, Eq)]
pub struct TokenStatus {
    pub broken: bool,
    pub rewards_left: u128,
}

/// Rewards a token could still claim: zero once broken, otherwise
/// everything settled since its baseline was last fixed.
pub open spec fn rewards_left_of(s: PoolModel, token_id: Seq<char>) -> u128 {
    if is_broken(s.nfts, token_id) {
        0
    } else {
        (s.reward_balance - snapshot_of(s.nfts, token_id)) as u128
    }
}

/// Report whether `token_id` is broken and what it could still claim.
pub fn query_token_info(state: &PoolState, token_id: &String) -> (r: TokenStatus)
    requires
        state@.wf(),
        has_token(state@.nfts, token_id@),
    ensures
        r.broken == is_broken(state@.nfts, token_id@),
        r.rewards_left == rewards_left_of(state@, token_id@),
{
    let (idx, _found) = token_find(&state.nfts, token_id);
    proof {
        lemma_token_at(state@.nfts, idx as int);
    }
    let broken = state.nfts[idx].broken;
    let rewards_left = if broken {
        0
    } else {
        state.reward_balance - state.nfts[idx].reward_snapshot
    };
    TokenStatus { broken, rewards_left }
}

} // verus!
