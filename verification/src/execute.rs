//! The mutating commands of the core: stake ledger commands, the two-phase
//! reward-claim pipeline, and the token lifecycle.
//!
//! Every command takes the state as one explicit value and returns the
//! outbound protocol messages it wants sent.  On any error the state is left
//! exactly as it was, mirroring the host's all-or-nothing transaction
//! semantics.

use vstd::prelude::*;
use crate::errors::ContractError;
use crate::state::{
    PoolState, PoolModel, TokenModel, StakeModel, TokenEntry, has_token, token_index,
    snapshot_of, is_broken, active_count, stake_of, ledger_wf, vals_view, nfts_view,
    ledger_upsert, ledger_reduce, copy_ledger, token_find, lemma_token_at,
    lemma_active_count_push, lemma_active_count_update,
};
use crate::encoding::{
    delegate_encoding, undelegate_encoding, redelegate_encoding, claim_rewards_encoding,
    encode_delegate_msg, encode_undelegate_msg, encode_redelegate_msg, encode_claim_rewards_msg,
};

verus! {

/// Denomination of the pooled reward asset.
pub open spec fn reward_denom() -> Seq<char> {
    "uluna"@
}

pub(crate) fn reward_denom_string() -> (r: String)
    ensures
        r@ == reward_denom(),
{
    "uluna".to_owned()
}

/// Type identifier of the delegate message.
pub open spec fn delegate_type_url() -> Seq<char> {
    "/alliance.alliance.MsgDelegate"@
}

/// Type identifier of the undelegate message.
pub open spec fn undelegate_type_url() -> Seq<char> {
    "/alliance.alliance.MsgUndelegate"@
}

/// Type identifier of the redelegate message.
pub open spec fn redelegate_type_url() -> Seq<char> {
    "/alliance.alliance.MsgRedelegate"@
}

/// Type identifier of the claim-delegation-rewards message.
pub open spec fn claim_rewards_type_url() -> Seq<char> {
    "/alliance.alliance.MsgClaimDelegationRewards"@
}

/// An outbound message the host is asked to dispatch after the command
/// commits.
#[derive(Debug, PartialEq, Eq)]
pub enum OutboundMsg {
    /// A binary-encoded message to the host's delegation module.  When
    /// `reply_on_error` is set, a failure of this one message is absorbed
    /// instead of aborting the transaction.
    Stargate { type_url: String, value: Vec<u8>, reply_on_error: bool },
    /// A native-asset transfer from the pool to `to_address`.
    Transfer { to_address: String, denom: String, amount: u128 },
    /// The self-addressed settle call, scheduled to run after all claim
    /// requests have resolved.
    SettleCallback { contract_addr: String },
}

/// Mathematical model of an outbound message.
#[verifier::ext_equal]
pub enum MsgModel {
    Stargate { type_url: Seq<char>, value: Seq<u8>, reply_on_error: bool },
    Transfer { to_address: Seq<char>, denom: Seq<char>, amount: u128 },
    SettleCallback { contract_addr: Seq<char> },
}

impl View for OutboundMsg {
    type V = MsgModel;

    open spec fn view(&self) -> MsgModel {
        match self {
            OutboundMsg::Stargate { type_url, value, reply_on_error } => MsgModel::Stargate {
                type_url: type_url@,
                value: value@,
                reply_on_error: *reply_on_error,
            },
            OutboundMsg::Transfer { to_address, denom, amount } => MsgModel::Transfer {
                to_address: to_address@,
                denom: denom@,
                amount: *amount,
            },
            OutboundMsg::SettleCallback { contract_addr } => MsgModel::SettleCallback {
                contract_addr: contract_addr@,
            },
        }
    }
}

pub open spec fn msgs_view(s: Seq<OutboundMsg>) -> Seq<MsgModel> {
    Seq::new(s.len(), |i: int| s[i]@)
}

/// One delegation or undelegation order: a validator and an amount.
pub struct Delegation {
    pub validator: String,
    pub amount: u128,
}

/// Mathematical model of a delegation order.
pub struct DelegationModel {
    pub validator: Seq<char>,
    pub amount: u128,
}

impl View for Delegation {
    type V = DelegationModel;

    open spec fn view(&self) -> DelegationModel {
        DelegationModel { validator: self.validator@, amount: self.amount }
    }
}

pub open spec fn delegations_view(s: Seq<Delegation>) -> Seq<DelegationModel> {
    Seq::new(s.len(), |i: int| s[i]@)
}

/// One redelegation order: move an amount from one validator to another.
pub struct Redelegation {
    pub src_validator: String,
    pub dst_validator: String,
    pub amount: u128,
}

/// Mathematical model of a redelegation order.
pub struct RedelegationModel {
    pub src_validator: Seq<char>,
    pub dst_validator: Seq<char>,
    pub amount: u128,
}

impl View for Redelegation {
    type V = RedelegationModel;

    open spec fn view(&self) -> RedelegationModel {
        RedelegationModel {
            src_validator: self.src_validator@,
            dst_validator: self.dst_validator@,
            amount: self.amount,
        }
    }
}

pub open spec fn redelegations_view(s: Seq<Redelegation>) -> Seq<RedelegationModel> {
    Seq::new(s.len(), |i: int| s[i]@)
}

/// One coin attached to an inbound command.
pub struct CoinValue {
    pub denom: String,
    pub amount: u128,
}

/// Mathematical model of an attached coin.
pub struct CoinModel {
    pub denom: Seq<char>,
    pub amount: u128,
}

impl View for CoinValue {
    type V = CoinModel;

    open spec fn view(&self) -> CoinModel {
        CoinModel { denom: self.denom@, amount: self.amount }
    }
}

pub open spec fn coins_view(s: Seq<CoinValue>) -> Seq<CoinModel> {
    Seq::new(s.len(), |i: int| s[i]@)
}

/// Amount of the first attached coin of the given denomination, zero when
/// none is attached.
pub open spec fn first_coin_amount(coins: Seq<CoinModel>, denom: Seq<char>) -> u128
    decreases coins.len(),
{
    if coins.len() == 0 {
        0
    } else if coins[0].denom == denom {
        coins[0].amount
    } else {
        first_coin_amount(coins.drop_first(), denom)
    }
}

pub(crate) fn delegate_type_url_string() -> (r: String)
    ensures
        r@ == delegate_type_url(),
{
    "/alliance.alliance.MsgDelegate".to_owned()
}

pub(crate) fn undelegate_type_url_string() -> (r: String)
    ensures
        r@ == undelegate_type_url(),
{
    "/alliance.alliance.MsgUndelegate".to_owned()
}

pub(crate) fn redelegate_type_url_string() -> (r: String)
    ensures
        r@ == redelegate_type_url(),
{
    "/alliance.alliance.MsgRedelegate".to_owned()
}

pub(crate) fn claim_rewards_type_url_string() -> (r: String)
    ensures
        r@ == claim_rewards_type_url(),
{
    "/alliance.alliance.MsgClaimDelegationRewards".to_owned()
}

/// Total amount a batch of delegation orders directs at validator `v`.
pub open spec fn delegation_sum(items: Seq<DelegationModel>, v: Seq<char>) -> int
    decreases items.len(),
{
    if items.len() == 0 {
        0
    } else {
        delegation_sum(items.drop_last(), v) + (if items.last().validator == v {
            items.last().amount as int
        } else {
            0int
        })
    }
}

pub proof fn lemma_delegation_sum_take_step(items: Seq<DelegationModel>, i: int, v: Seq<char>)
    requires
        0 <= i < items.len(),
    ensures
        delegation_sum(items.take(i + 1), v) == delegation_sum(items.take(i), v) + (if items[
            i
        ].validator == v {
            items[i].amount as int
        } else {
            0int
        }),
{
    assert(items.take(i + 1).drop_last() =~= items.take(i));
    assert(items.take(i + 1).last() == items[i]);
}

pub proof fn lemma_delegation_sum_take_le(items: Seq<DelegationModel>, i: int, v: Seq<char>)
    requires
        0 <= i <= items.len(),
    ensures
        delegation_sum(items.take(i), v) <= delegation_sum(items, v),
    decreases items.len() - i,
{
    if i < items.len() {
        lemma_delegation_sum_take_step(items, i, v);
        lemma_delegation_sum_take_le(items, i + 1, v);
    } else {
        assert(items.take(i) =~= items);
    }
}

/// A batch of undelegation orders is feasible when no order asks for more
/// than what the ledger still holds once the earlier orders of the batch
/// are taken out.
pub open spec fn undelegation_feasible(
    vals: Seq<StakeModel>,
    items: Seq<DelegationModel>,
) -> bool {
    forall|i: int|
        0 <= i < items.len() ==> #[trigger] delegation_sum(items.take(i), items[i].validator)
            + items[i].amount <= stake_of(vals, items[i].validator)
}

/// Total amount a batch of redelegation orders moves onto validator `v`.
pub open spec fn redelegation_gain(items: Seq<RedelegationModel>, v: Seq<char>) -> int
    decreases items.len(),
{
    if items.len() == 0 {
        0
    } else {
        redelegation_gain(items.drop_last(), v) + (if items.last().dst_validator == v {
            items.last().amount as int
        } else {
            0int
        })
    }
}

/// Total amount a batch of redelegation orders moves off validator `v`.
pub open spec fn redelegation_loss(items: Seq<RedelegationModel>, v: Seq<char>) -> int
    decreases items.len(),
{
    if items.len() == 0 {
        0
    } else {
        redelegation_loss(items.drop_last(), v) + (if items.last().src_validator == v {
            items.last().amount as int
        } else {
            0int
        })
    }
}

pub proof fn lemma_redelegation_gain_take_step(items: Seq<RedelegationModel>, i: int, v: Seq<char>)
    requires
        0 <= i < items.len(),
    ensures
        redelegation_gain(items.take(i + 1), v) == redelegation_gain(items.take(i), v) + (if items[
            i
        ].dst_validator == v {
            items[i].amount as int
        } else {
            0int
        }),
{
    assert(items.take(i + 1).drop_last() =~= items.take(i));
    assert(items.take(i + 1).last() == items[i]);
}

pub proof fn lemma_redelegation_loss_take_step(items: Seq<RedelegationModel>, i: int, v: Seq<char>)
    requires
        0 <= i < items.len(),
    ensures
        redelegation_loss(items.take(i + 1), v) == redelegation_loss(items.take(i), v) + (if items[
            i
        ].src_validator == v {
            items[i].amount as int
        } else {
            0int
        }),
{
    assert(items.take(i + 1).drop_last() =~= items.take(i));
    assert(items.take(i + 1).last() == items[i]);
}

/// A batch of redelegation orders is feasible when each order's source
/// still holds the ordered amount at the moment the order is applied,
/// counting what the earlier orders of the batch (and this order's own
/// destination credit) have already moved.
pub open spec fn redelegation_feasible(
    vals: Seq<StakeModel>,
    items: Seq<RedelegationModel>,
) -> bool {
    forall|i: int|
        0 <= i < items.len() ==> items[i].amount + #[trigger] redelegation_loss(
            items.take(i),
            items[i].src_validator,
        ) <= stake_of(vals, items[i].src_validator) + redelegation_gain(
            items.take(i + 1),
            items[i].src_validator,
        )
}

/// Pure authorization guard: the acting identity must equal the expected
/// principal.
pub fn authorize_execution(owner: &String, sender: &String) -> (r: Result<(), ContractError>)
    ensures
        r is Ok <==> sender@ == owner@,
        r is Err ==> (r matches Err(ContractError::Unauthorized { actual, expected })
            && actual@ == sender@ && expected@ == owner@),
{
    if *sender == *owner {
        Ok(())
    } else {
        Err(ContractError::Unauthorized { actual: sender.clone(), expected: owner.clone() })
    }
}

/// State after minting `token_id`: one more active token whose reward
/// baseline is fixed at the current accumulator value.
pub open spec fn mint_model(s: PoolModel, token_id: Seq<char>) -> PoolModel {
    PoolModel {
        num_active_nfts: (s.num_active_nfts + 1) as u64,
        nfts: s.nfts.push(
            TokenModel { token_id, reward_snapshot: s.reward_balance, broken: false },
        ),
        ..s
    }
}

/// The share a break of `token_id` pays out: everything settled since the
/// token's baseline was last fixed.
pub open spec fn break_claimable(s: PoolModel, token_id: Seq<char>) -> u128 {
    (s.reward_balance - snapshot_of(s.nfts, token_id)) as u128
}

/// State after breaking `token_id`: the token is frozen at the current
/// accumulator value and stops counting as active.
pub open spec fn break_model(s: PoolModel, token_id: Seq<char>) -> PoolModel {
    PoolModel {
        num_active_nfts: (s.num_active_nfts - 1) as u64,
        nfts: s.nfts.update(
            token_index(s.nfts, token_id),
            TokenModel { token_id, reward_snapshot: s.reward_balance, broken: true },
        ),
        ..s
    }
}

/// State after the settle step observed `current_balance`: the realized
/// delta per active token is folded into the accumulator and the pending
/// claim is cleared.
pub open spec fn settle_model(s: PoolModel, current_balance: u128) -> PoolModel {
    PoolModel {
        reward_balance: (s.reward_balance + (current_balance - s.temp_balance->0) / (
        s.num_active_nfts as int)) as u128,
        temp_balance: None,
        ..s
    }
}

/// A token with at least one non-broken entry has a positive active count.
pub proof fn lemma_active_count_positive(nfts: Seq<TokenModel>, i: int)
    requires
        0 <= i < nfts.len(),
        !nfts[i].broken,
    ensures
        active_count(nfts) >= 1,
    decreases nfts.len(),
{
    if i > 0 {
        lemma_active_count_positive(nfts.drop_first(), i - 1);
    }
}

/// Mint `token_id`: count it active and fix its reward baseline at the
/// current accumulator value.  Ownership and metadata live with the external
/// NFT collaborator, which also rejects duplicate identifiers.
pub fn try_mint(state: &mut PoolState, token_id: &String)
    requires
        old(state)@.wf(),
        !has_token(old(state)@.nfts, token_id@),
        old(state)@.num_active_nfts < u64::MAX,
    ensures
        final(state)@.wf(),
        final(state)@ == mint_model(old(state)@, token_id@),
{
    let ghost s0 = state@;
    state.num_active_nfts = state.num_active_nfts + 1;
    let snapshot = state.reward_balance;
    state.nfts.push(
        TokenEntry { token_id: token_id.clone(), reward_snapshot: snapshot, broken: false },
    );
    proof {
        let t = TokenModel {
            token_id: token_id@,
            reward_snapshot: s0.reward_balance,
            broken: false,
        };
        assert(nfts_view(state.nfts@) =~= s0.nfts.push(t));
        lemma_active_count_push(s0.nfts, t);
        assert forall|i: int, j: int|
            0 <= i < j < state@.nfts.len() implies state@.nfts[i].token_id
            != state@.nfts[j].token_id by {
            if j < s0.nfts.len() {
                assert(s0.nfts[i].token_id != s0.nfts[j].token_id);
            } else {
                assert(state@.nfts[j].token_id == token_id@);
                if state@.nfts[i].token_id == token_id@ {
                    assert(s0.nfts[i].token_id == token_id@);
                    assert(has_token(s0.nfts, token_id@));
                }
            }
        }
        assert(state@ =~= mint_model(s0, token_id@));
    }
}

/// Break `token_id`, paying its accrued share out to its owner.
///
/// The caller must be the token's current owner (looked up through the
/// external ownership collaborator); a broken token cannot be broken again,
/// and a failed call leaves the state untouched.
pub fn try_breaknft(
    state: &mut PoolState,
    token_id: &String,
    owner: &String,
    sender: &String,
) -> (r: Result<Vec<OutboundMsg>, ContractError>)
    requires
        old(state)@.wf(),
        has_token(old(state)@.nfts, token_id@),
    ensures
        final(state)@.wf(),
        r is Err ==> final(state)@ == old(state)@,
        sender@ != owner@ ==> (r matches Err(ContractError::Unauthorized { actual, expected })
            && actual@ == sender@ && expected@ == owner@),
        (sender@ == owner@ && is_broken(old(state)@.nfts, token_id@)) <==> r == Err::<
            Vec<OutboundMsg>,
            ContractError,
        >(ContractError::AlreadyBroken),
        r is Ok <==> (sender@ == owner@ && !is_broken(old(state)@.nfts, token_id@)),
        r is Ok ==> final(state)@ == break_model(old(state)@, token_id@),
        r is Ok ==> msgs_view(r->Ok_0@) == (if break_claimable(old(state)@, token_id@) > 0 {
            seq![
                MsgModel::Transfer {
                    to_address: owner@,
                    denom: reward_denom(),
                    amount: break_claimable(old(state)@, token_id@),
                },
            ]
        } else {
            Seq::<MsgModel>::empty()
        }),
{
    let ghost s0 = state@;
    if let Err(e) = authorize_execution(owner, sender) {
        return Err(e);
    }
    let (idx, found) = token_find(&state.nfts, token_id);
    proof {
        lemma_token_at(s0.nfts, idx as int);
    }
    if state.nfts[idx].broken {
        return Err(ContractError::AlreadyBroken);
    }
    proof {
        lemma_active_count_positive(s0.nfts, idx as int);
    }
    if state.num_active_nfts == 0 {
        // Unreachable from a well-formed state: a non-broken token exists,
        // so the active count is at least one.
        return Err(ContractError::ActiveCountUnderflow);
    }
    let average_rewards = state.reward_balance;
    let rewards_claimable = average_rewards - state.nfts[idx].reward_snapshot;
    let e = state.nfts.remove(idx);
    state.nfts.insert(
        idx,
        TokenEntry { token_id: e.token_id, reward_snapshot: average_rewards, broken: true },
    );
    state.num_active_nfts = state.num_active_nfts - 1;
    proof {
        let t = TokenModel {
            token_id: token_id@,
            reward_snapshot: s0.reward_balance,
            broken: true,
        };
        assert(nfts_view(state.nfts@) =~= s0.nfts.update(idx as int, t));
        lemma_active_count_update(s0.nfts, idx as int, t);
        assert forall|i: int, j: int|
            0 <= i < j < state@.nfts.len() implies state@.nfts[i].token_id
            != state@.nfts[j].token_id by {
            assert(s0.nfts[i].token_id != s0.nfts[j].token_id);
            assert(state@.nfts[i].token_id == s0.nfts[i].token_id);
            assert(state@.nfts[j].token_id == s0.nfts[j].token_id);
        }
        assert(state@ =~= break_model(s0, token_id@));
    }
    let mut msgs: Vec<OutboundMsg> = Vec::new();
    if rewards_claimable > 0 {
        msgs.push(
            OutboundMsg::Transfer {
                to_address: owner.clone(),
                denom: reward_denom_string(),
                amount: rewards_claimable,
            },
        );
        proof {
            assert(msgs_view(msgs@) =~= seq![
                MsgModel::Transfer {
                    to_address: owner@,
                    denom: reward_denom(),
                    amount: break_claimable(s0, token_id@),
                },
            ]);
        }
    } else {
        proof {
            assert(msgs_view(msgs@) =~= Seq::<MsgModel>::empty());
        }
    }
    Ok(msgs)
}

/// Settle callback: fold the realized reward delta into the accumulator.
///
/// Callable only by the pool itself; a balance below the one recorded at
/// claim initiation is a protocol violation and fails loudly.
pub fn update_reward_callback(
    state: &mut PoolState,
    contract_addr: &String,
    sender: &String,
    current_balance: u128,
) -> (r: Result<(), ContractError>)
    requires
        old(state)@.wf(),
        old(state)@.temp_balance is Some,
        old(state)@.num_active_nfts > 0,
        old(state)@.reward_balance + (current_balance - old(state)@.temp_balance->0) / (
        old(state)@.num_active_nfts as int) <= u128::MAX,
    ensures
        final(state)@.wf(),
        r is Err ==> final(state)@ == old(state)@,
        sender@ != contract_addr@ ==> (r matches Err(
            ContractError::Unauthorized { actual, expected },
        ) && actual@ == sender@ && expected@ == contract_addr@),
        (sender@ == contract_addr@ && current_balance < old(state)@.temp_balance->0) <==> r
            == Err::<(), ContractError>(ContractError::SettlementBalanceRegression),
        r is Ok <==> (sender@ == contract_addr@ && current_balance >= old(state)@.temp_balance->0),
        r is Ok ==> final(state)@ == settle_model(old(state)@, current_balance),
        r is Ok ==> final(state)@.reward_balance >= old(state)@.reward_balance,
{
    let ghost s0 = state@;
    if let Err(e) = authorize_execution(contract_addr, sender) {
        return Err(e);
    }
    let previous_balance = state.temp_balance.unwrap();
    if current_balance < previous_balance {
        return Err(ContractError::SettlementBalanceRegression);
    }
    let rewards_collected = current_balance - previous_balance;
    let average_reward = rewards_collected / (state.num_active_nfts as u128);
    state.reward_balance = state.reward_balance + average_reward;
    state.temp_balance = None;
    proof {
        assert(state@ =~= settle_model(s0, current_balance));
    }
    Ok(())
}

/// Delegate pooled funds: add each order to the ledger and emit one
/// delegate message per order.  Only the configured owner may delegate.
pub fn try_alliance_delegate(
    state: &mut PoolState,
    sender: &String,
    cfg_owner: &String,
    contract_addr: &String,
    asset_denom: &String,
    delegations: &Vec<Delegation>,
) -> (r: Result<Vec<OutboundMsg>, ContractError>)
    requires
        old(state)@.wf(),
        forall|v: Seq<char>|
            stake_of(old(state)@.vals, v) + #[trigger] delegation_sum(
                delegations_view(delegations@),
                v,
            ) <= u128::MAX,
    ensures
        final(state)@.wf(),
        r is Err <==> sender@ != cfg_owner@,
        r is Err ==> (r matches Err(ContractError::Unauthorized { actual, expected })
            && actual@ == sender@ && expected@ == cfg_owner@ && final(state)@ == old(state)@),
        r is Ok ==> ({
            &&& forall|v: Seq<char>|
                #[trigger] stake_of(final(state)@.vals, v) == stake_of(old(state)@.vals, v)
                    + delegation_sum(delegations_view(delegations@), v)
            &&& final(state)@.reward_balance == old(state)@.reward_balance
            &&& final(state)@.num_active_nfts == old(state)@.num_active_nfts
            &&& final(state)@.temp_balance == old(state)@.temp_balance
            &&& final(state)@.nfts == old(state)@.nfts
            &&& r->Ok_0@.len() == delegations@.len()
            &&& forall|i: int|
                0 <= i < delegations@.len() ==> msgs_view(r->Ok_0@)[i] == (MsgModel::Stargate {
                    type_url: delegate_type_url(),
                    value: delegate_encoding(
                        contract_addr@,
                        delegations_view(delegations@)[i].validator,
                        asset_denom@,
                        delegations_view(delegations@)[i].amount,
                    ),
                    reply_on_error: false,
                })
        }),
{
    if let Err(e) = authorize_execution(cfg_owner, sender) {
        return Err(e);
    }
    let ghost dv = delegations_view(delegations@);
    let ghost vm0 = state@.vals;
    let mut scratch = copy_ledger(&state.vals);
    let mut msgs: Vec<OutboundMsg> = Vec::new();
    let mut i: usize = 0;
    proof {
        assert forall|v: Seq<char>|
            #[trigger] stake_of(vals_view(scratch@), v) == stake_of(vm0, v) + delegation_sum(
                dv.take(0),
                v,
            ) by {
            assert(dv.take(0).len() == 0);
        }
    }
    while i < delegations.len()
        invariant
            i <= delegations@.len(),
            dv == delegations_view(delegations@),
            vm0 == state@.vals,
            old(state)@.wf(),
            ledger_wf(vals_view(scratch@)),
            forall|v: Seq<char>|
                stake_of(vm0, v) + #[trigger] delegation_sum(dv, v) <= u128::MAX,
            forall|v: Seq<char>|
                #[trigger] stake_of(vals_view(scratch@), v) == stake_of(vm0, v) + delegation_sum(
                    dv.take(i as int),
                    v,
                ),
            msgs@.len() == i,
            forall|k: int|
                0 <= k < i ==> msgs_view(msgs@)[k] == (MsgModel::Stargate {
                    type_url: delegate_type_url(),
                    value: delegate_encoding(
                        contract_addr@,
                        dv[k].validator,
                        asset_denom@,
                        dv[k].amount,
                    ),
                    reply_on_error: false,
                }),
        decreases delegations@.len() - i,
    {
        let d = &delegations[i];
        proof {
            lemma_delegation_sum_take_step(dv, i as int, d@.validator);
            lemma_delegation_sum_take_le(dv, i as int + 1, d@.validator);
            assert(stake_of(vals_view(scratch@), d@.validator) + d@.amount <= u128::MAX);
        }
        ledger_upsert(&mut scratch, &d.validator, d.amount);
        let value = encode_delegate_msg(contract_addr, &d.validator, asset_denom, d.amount);
        let ghost m0 = msgs@;
        msgs.push(
            OutboundMsg::Stargate {
                type_url: delegate_type_url_string(),
                value,
                reply_on_error: false,
            },
        );
        proof {
            assert forall|v: Seq<char>|
                #[trigger] stake_of(vals_view(scratch@), v) == stake_of(vm0, v) + delegation_sum(
                    dv.take(i as int + 1),
                    v,
                ) by {
                lemma_delegation_sum_take_step(dv, i as int, v);
            }
            assert forall|k: int|
                0 <= k <= i implies msgs_view(msgs@)[k] == (MsgModel::Stargate {
                    type_url: delegate_type_url(),
                    value: delegate_encoding(
                        contract_addr@,
                        dv[k].validator,
                        asset_denom@,
                        dv[k].amount,
                    ),
                    reply_on_error: false,
                }) by {
                if k == i {
                    assert(msgs_view(msgs@)[k] =~= (MsgModel::Stargate {
                        type_url: delegate_type_url(),
                        value: delegate_encoding(
                            contract_addr@,
                            dv[k].validator,
                            asset_denom@,
                            dv[k].amount,
                        ),
                        reply_on_error: false,
                    }));
                } else {
                    assert(msgs@[k] == m0[k]);
                    assert(msgs_view(msgs@)[k] == msgs_view(m0)[k]);
                }
            }
        }
        i = i + 1;
    }
    proof {
        assert(dv.take(delegations@.len() as int) =~= dv);
    }
    state.vals = scratch;
    Ok(msgs)
}

/// Undelegate pooled funds: subtract each order from the ledger and emit
/// one undelegate message per order.  Only the configured owner may
/// undelegate; an empty batch is rejected, and an order that exceeds the
/// recorded stake aborts the whole batch.
pub fn try_alliance_undelegate(
    state: &mut PoolState,
    sender: &String,
    cfg_owner: &String,
    contract_addr: &String,
    asset_denom: &String,
    undelegations: &Vec<Delegation>,
) -> (r: Result<Vec<OutboundMsg>, ContractError>)
    requires
        old(state)@.wf(),
    ensures
        final(state)@.wf(),
        r is Err ==> final(state)@ == old(state)@,
        sender@ != cfg_owner@ ==> (r matches Err(ContractError::Unauthorized { actual, expected })
            && actual@ == sender@ && expected@ == cfg_owner@),
        sender@ == cfg_owner@ ==> ((undelegations@.len() == 0) <==> r == Err::<
            Vec<OutboundMsg>,
            ContractError,
        >(ContractError::EmptyDelegationBatch)),
        r is Ok <==> (sender@ == cfg_owner@ && undelegations@.len() > 0 && undelegation_feasible(
            old(state)@.vals,
            delegations_view(undelegations@),
        )),
        (sender@ == cfg_owner@ && undelegations@.len() > 0 && !undelegation_feasible(
            old(state)@.vals,
            delegations_view(undelegations@),
        )) <==> r == Err::<Vec<OutboundMsg>, ContractError>(ContractError::InsufficientStake),
        r is Ok ==> ({
            &&& forall|v: Seq<char>|
                #[trigger] stake_of(final(state)@.vals, v) == stake_of(old(state)@.vals, v)
                    - delegation_sum(delegations_view(undelegations@), v)
            &&& final(state)@.reward_balance == old(state)@.reward_balance
            &&& final(state)@.num_active_nfts == old(state)@.num_active_nfts
            &&& final(state)@.temp_balance == old(state)@.temp_balance
            &&& final(state)@.nfts == old(state)@.nfts
            &&& r->Ok_0@.len() == undelegations@.len()
            &&& forall|i: int|
                0 <= i < undelegations@.len() ==> msgs_view(r->Ok_0@)[i] == (MsgModel::Stargate {
                    type_url: undelegate_type_url(),
                    value: undelegate_encoding(
                        contract_addr@,
                        delegations_view(undelegations@)[i].validator,
                        asset_denom@,
                        delegations_view(undelegations@)[i].amount,
                    ),
                    reply_on_error: false,
                })
        }),
{
    if let Err(e) = authorize_execution(cfg_owner, sender) {
        return Err(e);
    }
    if undelegations.len() == 0 {
        return Err(ContractError::EmptyDelegationBatch);
    }
    let ghost dv = delegations_view(undelegations@);
    let ghost vm0 = state@.vals;
    let mut scratch = copy_ledger(&state.vals);
    let mut msgs: Vec<OutboundMsg> = Vec::new();
    let mut i: usize = 0;
    proof {
        assert forall|v: Seq<char>|
            #[trigger] stake_of(vals_view(scratch@), v) == stake_of(vm0, v) - delegation_sum(
                dv.take(0),
                v,
            ) by {
            assert(dv.take(0).len() == 0);
        }
    }
    while i < undelegations.len()
        invariant
            i <= undelegations@.len(),
            sender@ == cfg_owner@,
            undelegations@.len() > 0,
            dv == delegations_view(undelegations@),
            vm0 == state@.vals,
            old(state)@.wf(),
            ledger_wf(vals_view(scratch@)),
            forall|v: Seq<char>|
                #[trigger] stake_of(vals_view(scratch@), v) == stake_of(vm0, v) - delegation_sum(
                    dv.take(i as int),
                    v,
                ),
            forall|k: int|
                0 <= k < i ==> #[trigger] delegation_sum(dv.take(k), dv[k].validator) + dv[
                    k
                ].amount <= stake_of(vm0, dv[k].validator),
            msgs@.len() == i,
            forall|k: int|
                0 <= k < i ==> msgs_view(msgs@)[k] == (MsgModel::Stargate {
                    type_url: undelegate_type_url(),
                    value: undelegate_encoding(
                        contract_addr@,
                        dv[k].validator,
                        asset_denom@,
                        dv[k].amount,
                    ),
                    reply_on_error: false,
                }),
        decreases undelegations@.len() - i,
    {
        let d = &undelegations[i];
        let step = ledger_reduce(&mut scratch, &d.validator, d.amount);
        if step.is_err() {
            proof {
                assert(dv[i as int] == d@);
                lemma_delegation_sum_take_step(dv, i as int, d@.validator);
                assert(stake_of(vals_view(scratch@), dv[i as int].validator) == stake_of(
                    vm0,
                    dv[i as int].validator,
                ) - delegation_sum(dv.take(i as int), dv[i as int].validator));
                assert(!(delegation_sum(dv.take(i as int), dv[i as int].validator) + dv[
                    i as int
                ].amount <= stake_of(vm0, dv[i as int].validator)));
                assert(!undelegation_feasible(vm0, dv));
            }
            return Err(ContractError::InsufficientStake);
        }
        let value = encode_undelegate_msg(contract_addr, &d.validator, asset_denom, d.amount);
        let ghost m0 = msgs@;
        msgs.push(
            OutboundMsg::Stargate {
                type_url: undelegate_type_url_string(),
                value,
                reply_on_error: false,
            },
        );
        proof {
            assert forall|v: Seq<char>|
                #[trigger] stake_of(vals_view(scratch@), v) == stake_of(vm0, v) - delegation_sum(
                    dv.take(i as int + 1),
                    v,
                ) by {
                lemma_delegation_sum_take_step(dv, i as int, v);
            }
            assert forall|k: int|
                0 <= k <= i implies msgs_view(msgs@)[k] == (MsgModel::Stargate {
                    type_url: undelegate_type_url(),
                    value: undelegate_encoding(
                        contract_addr@,
                        dv[k].validator,
                        asset_denom@,
                        dv[k].amount,
                    ),
                    reply_on_error: false,
                }) by {
                if k == i {
                    assert(msgs_view(msgs@)[k] =~= (MsgModel::Stargate {
                        type_url: undelegate_type_url(),
                        value: undelegate_encoding(
                            contract_addr@,
                            dv[k].validator,
                            asset_denom@,
                            dv[k].amount,
                        ),
                        reply_on_error: false,
                    }));
                } else {
                    assert(msgs@[k] == m0[k]);
                    assert(msgs_view(msgs@)[k] == msgs_view(m0)[k]);
                }
            }
        }
        i = i + 1;
    }
    proof {
        assert(dv.take(undelegations@.len() as int) =~= dv);
    }
    state.vals = scratch;
    Ok(msgs)
}

/// Redelegate pooled funds: per order, credit the destination and debit the
/// source, and emit one redelegate message.  Only the configured owner may
/// redelegate; an empty batch is rejected, and an order whose source does
/// not hold the amount at its turn aborts the whole batch.
pub fn try_alliance_redelegate(
    state: &mut PoolState,
    sender: &String,
    cfg_owner: &String,
    contract_addr: &String,
    asset_denom: &String,
    redelegations: &Vec<Redelegation>,
) -> (r: Result<Vec<OutboundMsg>, ContractError>)
    requires
        old(state)@.wf(),
        forall|i: int|
            0 <= i < redelegations@.len() ==> stake_of(
                old(state)@.vals,
                redelegations_view(redelegations@)[i].dst_validator,
            ) + #[trigger] redelegation_gain(
                redelegations_view(redelegations@).take(i),
                redelegations_view(redelegations@)[i].dst_validator,
            ) - redelegation_loss(
                redelegations_view(redelegations@).take(i),
                redelegations_view(redelegations@)[i].dst_validator,
            ) + redelegations_view(redelegations@)[i].amount <= u128::MAX,
    ensures
        final(state)@.wf(),
        r is Err ==> final(state)@ == old(state)@,
        sender@ != cfg_owner@ ==> (r matches Err(ContractError::Unauthorized { actual, expected })
            && actual@ == sender@ && expected@ == cfg_owner@),
        sender@ == cfg_owner@ ==> ((redelegations@.len() == 0) <==> r == Err::<
            Vec<OutboundMsg>,
            ContractError,
        >(ContractError::EmptyDelegationBatch)),
        r is Ok <==> (sender@ == cfg_owner@ && redelegations@.len() > 0 && redelegation_feasible(
            old(state)@.vals,
            redelegations_view(redelegations@),
        )),
        (sender@ == cfg_owner@ && redelegations@.len() > 0 && !redelegation_feasible(
            old(state)@.vals,
            redelegations_view(redelegations@),
        )) <==> r == Err::<Vec<OutboundMsg>, ContractError>(ContractError::InsufficientStake),
        r is Ok ==> ({
            &&& forall|v: Seq<char>|
                #[trigger] stake_of(final(state)@.vals, v) == stake_of(old(state)@.vals, v)
                    + redelegation_gain(redelegations_view(redelegations@), v)
                    - redelegation_loss(redelegations_view(redelegations@), v)
            &&& final(state)@.reward_balance == old(state)@.reward_balance
            &&& final(state)@.num_active_nfts == old(state)@.num_active_nfts
            &&& final(state)@.temp_balance == old(state)@.temp_balance
            &&& final(state)@.nfts == old(state)@.nfts
            &&& r->Ok_0@.len() == redelegations@.len()
            &&& forall|i: int|
                0 <= i < redelegations@.len() ==> msgs_view(r->Ok_0@)[i] == (MsgModel::Stargate {
                    type_url: redelegate_type_url(),
                    value: redelegate_encoding(
                        contract_addr@,
                        redelegations_view(redelegations@)[i].src_validator,
                        redelegations_view(redelegations@)[i].dst_validator,
                        asset_denom@,
                        redelegations_view(redelegations@)[i].amount,
                    ),
                    reply_on_error: false,
                })
        }),
{
    if let Err(e) = authorize_execution(cfg_owner, sender) {
        return Err(e);
    }
    if redelegations.len() == 0 {
        return Err(ContractError::EmptyDelegationBatch);
    }
    let ghost rv = redelegations_view(redelegations@);
    let ghost vm0 = state@.vals;
    let mut scratch = copy_ledger(&state.vals);
    let mut msgs: Vec<OutboundMsg> = Vec::new();
    let mut i: usize = 0;
    proof {
        assert forall|v: Seq<char>|
            #[trigger] stake_of(vals_view(scratch@), v) == stake_of(vm0, v) + redelegation_gain(
                rv.take(0),
                v,
            ) - redelegation_loss(rv.take(0), v) by {
            assert(rv.take(0).len() == 0);
        }
    }
    while i < redelegations.len()
        invariant
            i <= redelegations@.len(),
            sender@ == cfg_owner@,
            redelegations@.len() > 0,
            rv == redelegations_view(redelegations@),
            vm0 == state@.vals,
            old(state)@.wf(),
            ledger_wf(vals_view(scratch@)),
            forall|k: int|
                0 <= k < rv.len() ==> stake_of(vm0, rv[k].dst_validator) + #[trigger]
                redelegation_gain(rv.take(k), rv[k].dst_validator) - redelegation_loss(
                    rv.take(k),
                    rv[k].dst_validator,
                ) + rv[k].amount <= u128::MAX,
            forall|v: Seq<char>|
                #[trigger] stake_of(vals_view(scratch@), v) == stake_of(vm0, v) + redelegation_gain(
                    rv.take(i as int),
                    v,
                ) - redelegation_loss(rv.take(i as int), v),
            forall|k: int|
                0 <= k < i ==> rv[k].amount + #[trigger] redelegation_loss(
                    rv.take(k),
                    rv[k].src_validator,
                ) <= stake_of(vm0, rv[k].src_validator) + redelegation_gain(
                    rv.take(k + 1),
                    rv[k].src_validator,
                ),
            msgs@.len() == i,
            forall|k: int|
                0 <= k < i ==> msgs_view(msgs@)[k] == (MsgModel::Stargate {
                    type_url: redelegate_type_url(),
                    value: redelegate_encoding(
                        contract_addr@,
                        rv[k].src_validator,
                        rv[k].dst_validator,
                        asset_denom@,
                        rv[k].amount,
                    ),
                    reply_on_error: false,
                }),
        decreases redelegations@.len() - i,
    {
        let rd = &redelegations[i];
        proof {
            assert(rd@ == rv[i as int]);
            assert(stake_of(vm0, rv[i as int].dst_validator) + redelegation_gain(
                rv.take(i as int),
                rv[i as int].dst_validator,
            ) - redelegation_loss(rv.take(i as int), rv[i as int].dst_validator) + rv[
                i as int
            ].amount <= u128::MAX);
            assert(stake_of(vals_view(scratch@), rd@.dst_validator) + rd@.amount <= u128::MAX);
        }
        ledger_upsert(&mut scratch, &rd.dst_validator, rd.amount);
        proof {
            lemma_redelegation_gain_take_step(rv, i as int, rd@.src_validator);
        }
        let step = ledger_reduce(&mut scratch, &rd.src_validator, rd.amount);
        if step.is_err() {
            proof {
                assert(!(rv[i as int].amount + redelegation_loss(
                    rv.take(i as int),
                    rv[i as int].src_validator,
                ) <= stake_of(vm0, rv[i as int].src_validator) + redelegation_gain(
                    rv.take(i as int + 1),
                    rv[i as int].src_validator,
                )));
                assert(!redelegation_feasible(vm0, rv));
            }
            return Err(ContractError::InsufficientStake);
        }
        let value = encode_redelegate_msg(
            contract_addr,
            &rd.src_validator,
            &rd.dst_validator,
            asset_denom,
            rd.amount,
        );
        let ghost m0 = msgs@;
        msgs.push(
            OutboundMsg::Stargate {
                type_url: redelegate_type_url_string(),
                value,
                reply_on_error: false,
            },
        );
        proof {
            assert forall|v: Seq<char>|
                #[trigger] stake_of(vals_view(scratch@), v) == stake_of(vm0, v) + redelegation_gain(
                    rv.take(i as int + 1),
                    v,
                ) - redelegation_loss(rv.take(i as int + 1), v) by {
                lemma_redelegation_gain_take_step(rv, i as int, v);
                lemma_redelegation_loss_take_step(rv, i as int, v);
            }
            assert forall|k: int|
                0 <= k <= i implies msgs_view(msgs@)[k] == (MsgModel::Stargate {
                    type_url: redelegate_type_url(),
                    value: redelegate_encoding(
                        contract_addr@,
                        rv[k].src_validator,
                        rv[k].dst_validator,
                        asset_denom@,
                        rv[k].amount,
                    ),
                    reply_on_error: false,
                }) by {
                if k == i {
                    assert(msgs_view(msgs@)[k] =~= (MsgModel::Stargate {
                        type_url: redelegate_type_url(),
                        value: redelegate_encoding(
                            contract_addr@,
                            rv[k].src_validator,
                            rv[k].dst_validator,
                            asset_denom@,
                            rv[k].amount,
                        ),
                        reply_on_error: false,
                    }));
                } else {
                    assert(msgs@[k] == m0[k]);
                    assert(msgs_view(msgs@)[k] == msgs_view(m0)[k]);
                }
            }
        }
        i = i + 1;
    }
    proof {
        assert(rv.take(redelegations@.len() as int) =~= rv);
    }
    state.vals = scratch;
    Ok(msgs)
}

/// Skipping coins that do not match the denomination keeps the first-match
/// amount.
proof fn lemma_first_coin_amount_skip(coins: Seq<CoinModel>, denom: Seq<char>, i: int)
    requires
        0 <= i <= coins.len(),
        forall|k: int| 0 <= k < i ==> coins[k].denom != denom,
    ensures
        first_coin_amount(coins, denom) == first_coin_amount(coins.skip(i), denom),
    decreases i,
{
    if i > 0 {
        assert(coins[0].denom != denom);
        assert(forall|k: int| 0 <= k < i - 1 ==> coins.drop_first()[k] == coins[k + 1]);
        lemma_first_coin_amount_skip(coins.drop_first(), denom, i - 1);
        assert(coins.drop_first().skip(i - 1) =~= coins.skip(i));
    } else {
        assert(coins.skip(0) =~= coins);
    }
}

/// Amount of the reward denomination bundled into the inbound command.
fn first_fund_amount(funds: &Vec<CoinValue>) -> (r: u128)
    ensures
        r == first_coin_amount(coins_view(funds@), reward_denom()),
{
    let ghost cm = coins_view(funds@);
    let target = reward_denom_string();
    let mut i: usize = 0;
    while i < funds.len()
        invariant
            i <= funds@.len(),
            cm == coins_view(funds@),
            target@ == reward_denom(),
            forall|k: int| 0 <= k < i ==> cm[k].denom != reward_denom(),
        decreases funds@.len() - i,
    {
        if funds[i].denom == target {
            proof {
                lemma_first_coin_amount_skip(cm, reward_denom(), i as int);
                assert(cm.skip(i as int)[0] == cm[i as int]);
            }
            return funds[i].amount;
        }
        i = i + 1;
    }
    proof {
        lemma_first_coin_amount_skip(cm, reward_denom(), i as int);
    }
    0
}

/// Initiate a claim cycle: record the pool balance net of caller-supplied
/// funds, fan one failure-tolerant claim request out per ledger validator,
/// and schedule the self-addressed settle call.
///
/// Fails when no token is active, or when a claim cycle is already in
/// flight.
pub fn try_alliance_claim_rewards(
    state: &mut PoolState,
    contract_addr: &String,
    asset_denom: &String,
    funds: &Vec<CoinValue>,
    contract_balance: u128,
) -> (r: Result<Vec<OutboundMsg>, ContractError>)
    requires
        old(state)@.wf(),
        contract_balance >= first_coin_amount(coins_view(funds@), reward_denom()),
    ensures
        final(state)@.wf(),
        r is Err ==> final(state)@ == old(state)@,
        (old(state)@.num_active_nfts == 0) <==> r == Err::<Vec<OutboundMsg>, ContractError>(
            ContractError::NoActiveNfts,
        ),
        (old(state)@.num_active_nfts > 0 && old(state)@.temp_balance is Some) <==> r == Err::<
            Vec<OutboundMsg>,
            ContractError,
        >(ContractError::ClaimAlreadyInProgress),
        r is Ok <==> (old(state)@.num_active_nfts > 0 && old(state)@.temp_balance is None),
        r is Ok ==> ({
            &&& final(state)@.temp_balance == Some(
                (contract_balance - first_coin_amount(coins_view(funds@), reward_denom())) as u128,
            )
            &&& final(state)@.vals == old(state)@.vals
            &&& final(state)@.nfts == old(state)@.nfts
            &&& final(state)@.reward_balance == old(state)@.reward_balance
            &&& final(state)@.num_active_nfts == old(state)@.num_active_nfts
            &&& r->Ok_0@.len() == old(state)@.vals.len() + 1
            &&& forall|i: int|
                0 <= i < old(state)@.vals.len() ==> msgs_view(r->Ok_0@)[i] == (MsgModel::Stargate {
                    type_url: claim_rewards_type_url(),
                    value: claim_rewards_encoding(
                        contract_addr@,
                        old(state)@.vals[i].validator,
                        asset_denom@,
                    ),
                    reply_on_error: true,
                })
            &&& msgs_view(r->Ok_0@)[old(state)@.vals.len() as int] == (MsgModel::SettleCallback {
                contract_addr: contract_addr@,
            })
        }),
{
    if state.num_active_nfts == 0 {
        return Err(ContractError::NoActiveNfts);
    }
    if state.temp_balance.is_some() {
        return Err(ContractError::ClaimAlreadyInProgress);
    }
    let sent_balance = first_fund_amount(funds);
    let ghost vm0 = state@.vals;
    let mut msgs: Vec<OutboundMsg> = Vec::new();
    let mut i: usize = 0;
    while i < state.vals.len()
        invariant
            i <= state.vals@.len(),
            vm0 == state@.vals,
            msgs@.len() == i,
            forall|k: int|
                0 <= k < i ==> msgs_view(msgs@)[k] == (MsgModel::Stargate {
                    type_url: claim_rewards_type_url(),
                    value: claim_rewards_encoding(contract_addr@, vm0[k].validator, asset_denom@),
                    reply_on_error: true,
                }),
        decreases state.vals@.len() - i,
    {
        let v = &state.vals[i];
        let value = encode_claim_rewards_msg(contract_addr, &v.validator, asset_denom);
        let ghost m0 = msgs@;
        msgs.push(
            OutboundMsg::Stargate {
                type_url: claim_rewards_type_url_string(),
                value,
                reply_on_error: true,
            },
        );
        proof {
            assert forall|k: int|
                0 <= k <= i implies msgs_view(msgs@)[k] == (MsgModel::Stargate {
                    type_url: claim_rewards_type_url(),
                    value: claim_rewards_encoding(contract_addr@, vm0[k].validator, asset_denom@),
                    reply_on_error: true,
                }) by {
                if k == i {
                    assert(msgs_view(msgs@)[k] =~= (MsgModel::Stargate {
                        type_url: claim_rewards_type_url(),
                        value: claim_rewards_encoding(
                            contract_addr@,
                            vm0[k].validator,
                            asset_denom@,
                        ),
                        reply_on_error: true,
                    }));
                } else {
                    assert(msgs@[k] == m0[k]);
                    assert(msgs_view(msgs@)[k] == msgs_view(m0)[k]);
                }
            }
        }
        i = i + 1;
    }
    let ghost mn = msgs@;
    msgs.push(OutboundMsg::SettleCallback { contract_addr: contract_addr.clone() });
    proof {
        assert forall|k: int| 0 <= k < mn.len() implies msgs_view(msgs@)[k] == msgs_view(mn)[k] by {
            assert(msgs@[k] == mn[k]);
        }
        assert(msgs_view(msgs@)[vm0.len() as int] =~= (MsgModel::SettleCallback {
            contract_addr: contract_addr@,
        }));
    }
    state.temp_balance = Some(contract_balance - sent_balance);
    proof {
        assert(final(state)@.vals == old(state)@.vals);
        assert(final(state)@.nfts == old(state)@.nfts);
        assert(msgs@.len() == old(state)@.vals.len() + 1);
        assert forall|k: int|
            0 <= k < old(state)@.vals.len() implies msgs_view(msgs@)[k] == (MsgModel::Stargate {
                type_url: claim_rewards_type_url(),
                value: claim_rewards_encoding(
                    contract_addr@,
                    old(state)@.vals[k].validator,
                    asset_denom@,
                ),
                reply_on_error: true,
            }) by {
            assert(msgs_view(msgs@)[k] == msgs_view(mn)[k]);
            assert(msgs_view(mn)[k] == (MsgModel::Stargate {
                type_url: claim_rewards_type_url(),
                value: claim_rewards_encoding(contract_addr@, vm0[k].validator, asset_denom@),
                reply_on_error: true,
            }));
            assert(vm0[k] == old(state)@.vals[k]);
        }
        assert(msgs_view(msgs@)[old(state)@.vals.len() as int] == (MsgModel::SettleCallback {
            contract_addr: contract_addr@,
        }));
        assert(final(state)@.temp_balance == Some(
            (contract_balance - first_coin_amount(coins_view(funds@), reward_denom())) as u128,
        ));
    }
    Ok(msgs)
}

} // verus!
