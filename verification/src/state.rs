//! The persisted state of the reward-accrual core, modelled as one plain
//! value, together with the validator stake ledger operations.
//!
//! The mathematical model of the state is [`PoolModel`]: the ledger is a
//! sequence of `(validator, amount)` entries kept strictly sorted in
//! ascending identifier order with positive amounts, the token table is a
//! sequence of per-token records with distinct identifiers, and the active
//! token count equals the number of non-broken tokens.

use vstd::prelude::*;
use crate::order::{id_lt, lemma_id_lt_trichotomy, lemma_id_lt_trans, id_less};
use crate::errors::ContractError;

verus! {

/// One ledger entry: amount currently delegated to a validator.
#[derive(Debug, PartialEq, Eq)]
pub struct ValidatorStake {
    pub validator: String,
    pub delegated_amount: u128,
}

/// Mathematical model of a ledger entry.
pub struct StakeModel {
    pub validator: Seq<char>,
    pub delegated_amount: u128,
}

impl View for ValidatorStake {
    type V = StakeModel;

    open spec fn view(&self) -> StakeModel {
        StakeModel { validator: self.validator@, delegated_amount: self.delegated_amount }
    }
}

/// One token record: the accumulator value at its last settlement point and
/// its one-way broken flag.
pub struct TokenEntry {
    pub token_id: String,
    pub reward_snapshot: u128,
    pub broken: bool,
}

/// Mathematical model of a token record.
pub struct TokenModel {
    pub token_id: Seq<char>,
    pub reward_snapshot: u128,
    pub broken: bool,
}

impl View for TokenEntry {
    type V = TokenModel;

    open spec fn view(&self) -> TokenModel {
        TokenModel {
            token_id: self.token_id@,
            reward_snapshot: self.reward_snapshot,
            broken: self.broken,
        }
    }
}

/// The whole persisted state of the core.
pub struct PoolState {
    /// Validator stake ledger, sorted ascending by identifier.
    pub vals: Vec<ValidatorStake>,
    /// Reward accumulator: total reward per active token ever settled.
    pub reward_balance: u128,
    /// Number of minted, not-yet-broken tokens.
    pub num_active_nfts: u64,
    /// Balance observed at claim initiation; present only while a claim
    /// cycle is in flight.
    pub temp_balance: Option<u128>,
    /// Per-token snapshots and broken flags.
    pub nfts: Vec<TokenEntry>,
}

/// Mathematical model of the whole state.
pub struct PoolModel {
    pub vals: Seq<StakeModel>,
    pub reward_balance: u128,
    pub num_active_nfts: u64,
    pub temp_balance: Option<u128>,
    pub nfts: Seq<TokenModel>,
}

pub open spec fn vals_view(v: Seq<ValidatorStake>) -> Seq<StakeModel> {
    Seq::new(v.len(), |i: int| v[i]@)
}

pub open spec fn nfts_view(v: Seq<TokenEntry>) -> Seq<TokenModel> {
    Seq::new(v.len(), |i: int| v[i]@)
}

impl View for PoolState {
    type V = PoolModel;

    open spec fn view(&self) -> PoolModel {
        PoolModel {
            vals: vals_view(self.vals@),
            reward_balance: self.reward_balance,
            num_active_nfts: self.num_active_nfts,
            temp_balance: self.temp_balance,
            nfts: nfts_view(self.nfts@),
        }
    }
}

/// Ledger entries are strictly sorted in ascending identifier order.
pub open spec fn ledger_sorted(vals: Seq<StakeModel>) -> bool {
    forall|i: int, j: int|
        0 <= i < j < vals.len() ==> id_lt(vals[i].validator, vals[j].validator)
}

/// A ledger entry is removed as soon as its amount reaches zero, so every
/// present entry is positive.
pub open spec fn ledger_positive(vals: Seq<StakeModel>) -> bool {
    forall|i: int| 0 <= i < vals.len() ==> vals[i].delegated_amount > 0
}

pub open spec fn ledger_wf(vals: Seq<StakeModel>) -> bool {
    ledger_sorted(vals) && ledger_positive(vals)
}

/// Whether the ledger holds an entry for `id`.
pub open spec fn has_entry(vals: Seq<StakeModel>, id: Seq<char>) -> bool {
    exists|k: int| 0 <= k < vals.len() && vals[k].validator == id
}

/// Index of the entry for `id`; meaningful only when `has_entry` holds and
/// identifiers are distinct.
pub open spec fn entry_index(vals: Seq<StakeModel>, id: Seq<char>) -> int {
    choose|k: int| 0 <= k < vals.len() && vals[k].validator == id
}

/// The ledger as a total function: amount delegated to `id`, zero when no
/// entry exists.
pub open spec fn stake_of(vals: Seq<StakeModel>, id: Seq<char>) -> u128 {
    if has_entry(vals, id) {
        vals[entry_index(vals, id)].delegated_amount
    } else {
        0
    }
}

pub open spec fn ids_distinct(vals: Seq<StakeModel>) -> bool {
    forall|i: int, j: int|
        0 <= i < j < vals.len() ==> vals[i].validator != vals[j].validator
}

/// Token identifiers are pairwise distinct.
pub open spec fn tokens_distinct(nfts: Seq<TokenModel>) -> bool {
    forall|i: int, j: int|
        0 <= i < j < nfts.len() ==> nfts[i].token_id != nfts[j].token_id
}

pub open spec fn has_token(nfts: Seq<TokenModel>, id: Seq<char>) -> bool {
    exists|k: int| 0 <= k < nfts.len() && nfts[k].token_id == id
}

pub open spec fn token_index(nfts: Seq<TokenModel>, id: Seq<char>) -> int {
    choose|k: int| 0 <= k < nfts.len() && nfts[k].token_id == id
}

/// Accumulator value recorded when this token's reward baseline was last
/// fixed.
pub open spec fn snapshot_of(nfts: Seq<TokenModel>, id: Seq<char>) -> u128 {
    nfts[token_index(nfts, id)].reward_snapshot
}

pub open spec fn is_broken(nfts: Seq<TokenModel>, id: Seq<char>) -> bool {
    nfts[token_index(nfts, id)].broken
}

/// Number of non-broken tokens in the table.
pub open spec fn active_count(nfts: Seq<TokenModel>) -> nat
    decreases nfts.len(),
{
    if nfts.len() == 0 {
        0
    } else {
        (if nfts[0].broken {
            0nat
        } else {
            1nat
        }) + active_count(nfts.drop_first())
    }
}

impl PoolModel {
    /// Well-formedness: the internal invariant every operation preserves.
    pub open spec fn wf(self) -> bool {
        &&& ledger_wf(self.vals)
        &&& tokens_distinct(self.nfts)
        &&& self.num_active_nfts == active_count(self.nfts)
        &&& forall|i: int|
            0 <= i < self.nfts.len() ==> self.nfts[i].reward_snapshot <= self.reward_balance
    }
}

/// In a strictly sorted ledger the identifiers are pairwise distinct.
pub proof fn lemma_sorted_distinct(vals: Seq<StakeModel>)
    requires
        ledger_sorted(vals),
    ensures
        ids_distinct(vals),
{
    assert forall|i: int, j: int|
        0 <= i < j < vals.len() implies vals[i].validator != vals[j].validator by {
        lemma_id_lt_trichotomy(vals[i].validator, vals[j].validator);
    }
}

/// With distinct identifiers, the entry seen at index `i` is the entry the
/// ledger-as-function reports for its identifier.
pub proof fn lemma_stake_at(vals: Seq<StakeModel>, i: int)
    requires
        ids_distinct(vals),
        0 <= i < vals.len(),
    ensures
        has_entry(vals, vals[i].validator),
        entry_index(vals, vals[i].validator) == i,
        stake_of(vals, vals[i].validator) == vals[i].delegated_amount,
{
    let id = vals[i].validator;
    assert(has_entry(vals, id));
    let k = entry_index(vals, id);
    assert(0 <= k < vals.len() && vals[k].validator == id);
    if k != i {
        if k < i {
            assert(vals[k].validator != vals[i].validator);
        } else {
            assert(vals[i].validator != vals[k].validator);
        }
        assert(false);
    }
}

/// With distinct token identifiers, the token seen at index `i` is the one
/// the lookup functions report for its identifier.
pub proof fn lemma_token_at(nfts: Seq<TokenModel>, i: int)
    requires
        tokens_distinct(nfts),
        0 <= i < nfts.len(),
    ensures
        has_token(nfts, nfts[i].token_id),
        token_index(nfts, nfts[i].token_id) == i,
        snapshot_of(nfts, nfts[i].token_id) == nfts[i].reward_snapshot,
        is_broken(nfts, nfts[i].token_id) == nfts[i].broken,
{
    let id = nfts[i].token_id;
    assert(has_token(nfts, id));
    let k = token_index(nfts, id);
    assert(0 <= k < nfts.len() && nfts[k].token_id == id);
    if k != i {
        if k < i {
            assert(nfts[k].token_id != nfts[i].token_id);
        } else {
            assert(nfts[i].token_id != nfts[k].token_id);
        }
        assert(false);
    }
}

impl PoolState {
    /// The state of a freshly instantiated pool: empty ledger, zero
    /// accumulator, no tokens, no claim in flight.
    pub fn new() -> (s: PoolState)
        ensures
            s@.wf(),
            s@.vals.len() == 0,
            s@.reward_balance == 0,
            s@.num_active_nfts == 0,
            s@.temp_balance is None,
            s@.nfts.len() == 0,
    {
        let s = PoolState {
            vals: Vec::new(),
            reward_balance: 0,
            num_active_nfts: 0,
            temp_balance: None,
            nfts: Vec::new(),
        };
        proof {
            assert(vals_view(s.vals@) =~= Seq::<StakeModel>::empty());
            assert(nfts_view(s.nfts@) =~= Seq::<TokenModel>::empty());
        }
        s
    }
}

/// Updating the amount at index `i` leaves every other stake unchanged.
pub proof fn lemma_stake_update(vm: Seq<StakeModel>, i: int, amt: u128)
    requires
        ids_distinct(vm),
        0 <= i < vm.len(),
    ensures
        ({
            let vm2 = vm.update(i, StakeModel { validator: vm[i].validator, delegated_amount: amt });
            &&& ids_distinct(vm2)
            &&& stake_of(vm2, vm[i].validator) == amt
            &&& forall|x: Seq<char>|
                x != vm[i].validator ==> stake_of(vm2, x) == stake_of(vm, x)
        }),
{
    let vm2 = vm.update(i, StakeModel { validator: vm[i].validator, delegated_amount: amt });
    assert(forall|k: int| 0 <= k < vm.len() ==> vm2[k].validator == vm[k].validator);
    lemma_stake_at(vm2, i);
    assert forall|x: Seq<char>|
        x != vm[i].validator implies stake_of(vm2, x) == stake_of(vm, x) by {
        if has_entry(vm, x) {
            let k = entry_index(vm, x);
            assert(0 <= k < vm.len() && vm[k].validator == x);
            lemma_stake_at(vm, k);
            lemma_stake_at(vm2, k);
        } else {
            assert(forall|k: int| 0 <= k < vm2.len() ==> vm2[k].validator != x);
            assert(!has_entry(vm2, x));
        }
    }
}

/// Inserting a fresh entry at index `i` leaves every other stake unchanged.
pub proof fn lemma_stake_insert(vm: Seq<StakeModel>, i: int, e: StakeModel)
    requires
        ids_distinct(vm),
        !has_entry(vm, e.validator),
        0 <= i <= vm.len(),
    ensures
        ({
            let vm2 = vm.insert(i, e);
            &&& ids_distinct(vm2)
            &&& stake_of(vm2, e.validator) == e.delegated_amount
            &&& forall|x: Seq<char>| x != e.validator ==> stake_of(vm2, x) == stake_of(vm, x)
        }),
{
    let vm2 = vm.insert(i, e);
    assert(forall|k: int| 0 <= k < i ==> vm2[k] == vm[k]);
    assert(forall|k: int| i < k < vm2.len() ==> vm2[k] == vm[k - 1]);
    assert(forall|k: int| 0 <= k < vm.len() ==> vm[k].validator != e.validator);
    assert forall|p: int, q: int|
        0 <= p < q < vm2.len() implies vm2[p].validator != vm2[q].validator by {
        if p != i && q != i {
            let p0 = if p < i { p } else { p - 1 };
            let q0 = if q < i { q } else { q - 1 };
            assert(vm2[p] == vm[p0] && vm2[q] == vm[q0]);
        }
    }
    lemma_stake_at(vm2, i);
    assert forall|x: Seq<char>| x != e.validator implies stake_of(vm2, x) == stake_of(vm, x) by {
        if has_entry(vm, x) {
            let k = entry_index(vm, x);
            assert(0 <= k < vm.len() && vm[k].validator == x);
            lemma_stake_at(vm, k);
            let k2 = if k < i { k } else { k + 1 };
            assert(vm2[k2] == vm[k]);
            lemma_stake_at(vm2, k2);
        } else {
            assert forall|k: int| 0 <= k < vm2.len() implies vm2[k].validator != x by {
                if k != i {
                    let k0 = if k < i { k } else { k - 1 };
                    assert(vm2[k] == vm[k0]);
                }
            }
            assert(!has_entry(vm2, x));
        }
    }
}

/// Removing the entry at index `i` leaves every other stake unchanged.
pub proof fn lemma_stake_remove(vm: Seq<StakeModel>, i: int)
    requires
        ids_distinct(vm),
        0 <= i < vm.len(),
    ensures
        ({
            let vm2 = vm.remove(i);
            &&& ids_distinct(vm2)
            &&& !has_entry(vm2, vm[i].validator)
            &&& forall|x: Seq<char>|
                x != vm[i].validator ==> stake_of(vm2, x) == stake_of(vm, x)
        }),
{
    let vm2 = vm.remove(i);
    assert(forall|k: int| 0 <= k < i ==> vm2[k] == vm[k]);
    assert(forall|k: int| i <= k < vm2.len() ==> vm2[k] == vm[k + 1]);
    assert forall|p: int, q: int|
        0 <= p < q < vm2.len() implies vm2[p].validator != vm2[q].validator by {
        let p0 = if p < i { p } else { p + 1 };
        let q0 = if q < i { q } else { q + 1 };
        assert(vm2[p] == vm[p0] && vm2[q] == vm[q0]);
    }
    assert forall|k: int| 0 <= k < vm2.len() implies vm2[k].validator != vm[i].validator by {
        let k0 = if k < i { k } else { k + 1 };
        assert(vm2[k] == vm[k0]);
        if k0 < i {
            assert(vm[k0].validator != vm[i].validator);
        } else {
            assert(vm[i].validator != vm[k0].validator);
        }
    }
    assert forall|x: Seq<char>|
        x != vm[i].validator implies stake_of(vm2, x) == stake_of(vm, x) by {
        if has_entry(vm, x) {
            let k = entry_index(vm, x);
            assert(0 <= k < vm.len() && vm[k].validator == x);
            lemma_stake_at(vm, k);
            assert(k != i);
            let k2 = if k < i { k } else { k - 1 };
            assert(vm2[k2] == vm[k]);
            lemma_stake_at(vm2, k2);
        } else {
            assert forall|k: int| 0 <= k < vm2.len() implies vm2[k].validator != x by {
                let k0 = if k < i { k } else { k + 1 };
                assert(vm2[k] == vm[k0]);
            }
            assert(!has_entry(vm2, x));
        }
    }
}

/// Scan a sorted ledger for `validator`.  Returns the insertion position and
/// whether an entry for `validator` stands exactly there.
fn ledger_find(vals: &Vec<ValidatorStake>, validator: &String) -> (r: (usize, bool))
    requires
        ledger_sorted(vals_view(vals@)),
    ensures
        r.0 <= vals@.len(),
        forall|k: int| 0 <= k < r.0 ==> id_lt(vals_view(vals@)[k].validator, validator@),
        r.1 <==> (r.0 < vals@.len() && vals_view(vals@)[r.0 as int].validator == validator@),
        !r.1 && r.0 < vals@.len() ==> id_lt(validator@, vals_view(vals@)[r.0 as int].validator),
        !r.1 ==> !has_entry(vals_view(vals@), validator@),
{
    let ghost vm = vals_view(vals@);
    let mut i: usize = 0;
    while i < vals.len() && id_less(vals[i].validator.as_str(), validator.as_str())
        invariant
            i <= vals@.len(),
            vm == vals_view(vals@),
            forall|k: int| 0 <= k < i ==> id_lt(vm[k].validator, validator@),
        decreases vals@.len() - i,
    {
        i = i + 1;
    }
    let exact = i < vals.len() && vals[i].validator == *validator;
    proof {
        if !exact {
            if i < vals@.len() {
                lemma_id_lt_trichotomy(vm[i as int].validator, validator@);
            }
            assert forall|k: int| 0 <= k < vm.len() implies vm[k].validator != validator@ by {
                if k < i {
                    lemma_id_lt_trichotomy(vm[k].validator, validator@);
                } else if k > i {
                    assert(id_lt(vm[i as int].validator, vm[k].validator));
                    lemma_id_lt_trans(validator@, vm[i as int].validator, vm[k].validator);
                    lemma_id_lt_trichotomy(vm[k].validator, validator@);
                } else {
                    lemma_id_lt_trichotomy(vm[k].validator, validator@);
                }
            }
        }
    }
    (i, exact)
}

/// Add `amount` to the entry for `validator`, creating it when absent.  An
/// entry is only held while its amount is positive.
pub(crate) fn ledger_upsert(vals: &mut Vec<ValidatorStake>, validator: &String, amount: u128)
    requires
        ledger_wf(vals_view(old(vals)@)),
        stake_of(vals_view(old(vals)@), validator@) + amount <= u128::MAX,
    ensures
        ledger_wf(vals_view(final(vals)@)),
        stake_of(vals_view(final(vals)@), validator@) == stake_of(
            vals_view(old(vals)@),
            validator@,
        ) + amount,
        forall|x: Seq<char>|
            x != validator@ ==> stake_of(vals_view(final(vals)@), x) == stake_of(
                vals_view(old(vals)@),
                x,
            ),
{
    let ghost vm = vals_view(vals@);
    proof {
        lemma_sorted_distinct(vm);
    }
    let (pos, exact) = ledger_find(vals, validator);
    if exact {
        proof {
            lemma_stake_at(vm, pos as int);
        }
        let e = vals.remove(pos);
        let new_amount = e.delegated_amount + amount;
        vals.insert(pos, ValidatorStake { validator: e.validator, delegated_amount: new_amount });
        proof {
            let vm2 = vals_view(vals@);
            let entry = StakeModel { validator: vm[pos as int].validator, delegated_amount: new_amount };
            assert(vm2 =~= vm.update(pos as int, entry));
            lemma_stake_update(vm, pos as int, new_amount);
            assert(forall|k: int| 0 <= k < vm2.len() ==> vm2[k].validator == vm[k].validator);
            assert forall|i: int, j: int|
                0 <= i < j < vm2.len() implies id_lt(vm2[i].validator, vm2[j].validator) by {
                assert(id_lt(vm[i].validator, vm[j].validator));
            }
        }
    } else if amount > 0 {
        vals.insert(pos, ValidatorStake { validator: validator.clone(), delegated_amount: amount });
        proof {
            let vm2 = vals_view(vals@);
            let e = StakeModel { validator: validator@, delegated_amount: amount };
            assert(vm2 =~= vm.insert(pos as int, e));
            lemma_stake_insert(vm, pos as int, e);
            let p = pos as int;
            assert forall|i: int, j: int|
                0 <= i < j < vm2.len() implies id_lt(vm2[i].validator, vm2[j].validator) by {
                if j < p {
                    assert(vm2[i] == vm[i] && vm2[j] == vm[j]);
                } else if i < p && j == p {
                    assert(vm2[i] == vm[i]);
                    assert(id_lt(vm[i].validator, validator@));
                } else if i < p && j > p {
                    assert(vm2[i] == vm[i] && vm2[j] == vm[j - 1]);
                    assert(id_lt(vm[i].validator, vm[j - 1].validator));
                } else if i == p && j > p {
                    assert(vm2[j] == vm[j - 1]);
                    assert(id_lt(validator@, vm[p].validator));
                    if j - 1 > p {
                        assert(id_lt(vm[p].validator, vm[j - 1].validator));
                        lemma_id_lt_trans(validator@, vm[p].validator, vm[j - 1].validator);
                    }
                } else {
                    assert(vm2[i] == vm[i - 1] && vm2[j] == vm[j - 1]);
                    assert(id_lt(vm[i - 1].validator, vm[j - 1].validator));
                }
            }
        }
    } else {
        // A zero delegation to an unknown validator creates no entry.
    }
}

/// Subtract `amount` from the entry for `validator`; the entry disappears
/// when it reaches exactly zero.  Fails with `InsufficientStake`, leaving the
/// ledger unchanged, when `amount` exceeds the recorded stake.
pub(crate) fn ledger_reduce(vals: &mut Vec<ValidatorStake>, validator: &String, amount: u128) -> (r:
    Result<(), ContractError>)
    requires
        ledger_wf(vals_view(old(vals)@)),
    ensures
        ledger_wf(vals_view(final(vals)@)),
        r is Err <==> amount > stake_of(vals_view(old(vals)@), validator@),
        r is Err ==> r == Err::<(), ContractError>(ContractError::InsufficientStake)
            && final(vals)@ == old(vals)@,
        r is Ok ==> stake_of(vals_view(final(vals)@), validator@) == stake_of(
            vals_view(old(vals)@),
            validator@,
        ) - amount,
        r is Ok ==> forall|x: Seq<char>|
            x != validator@ ==> stake_of(vals_view(final(vals)@), x) == stake_of(
                vals_view(old(vals)@),
                x,
            ),
{
    let ghost vm = vals_view(vals@);
    proof {
        lemma_sorted_distinct(vm);
    }
    let (pos, exact) = ledger_find(vals, validator);
    if exact {
        proof {
            lemma_stake_at(vm, pos as int);
        }
        let cur = vals[pos].delegated_amount;
        if amount > cur {
            return Err(ContractError::InsufficientStake);
        }
        let e = vals.remove(pos);
        if amount < cur {
            let new_amount = cur - amount;
            vals.insert(
                pos,
                ValidatorStake { validator: e.validator, delegated_amount: new_amount },
            );
            proof {
                let vm2 = vals_view(vals@);
                let entry = StakeModel {
                    validator: vm[pos as int].validator,
                    delegated_amount: new_amount,
                };
                assert(vm2 =~= vm.update(pos as int, entry));
                lemma_stake_update(vm, pos as int, new_amount);
                assert(forall|k: int| 0 <= k < vm2.len() ==> vm2[k].validator == vm[k].validator);
                assert forall|i: int, j: int|
                    0 <= i < j < vm2.len() implies id_lt(vm2[i].validator, vm2[j].validator) by {
                    assert(id_lt(vm[i].validator, vm[j].validator));
                }
            }
        } else {
            proof {
                let vm2 = vals_view(vals@);
                assert(vm2 =~= vm.remove(pos as int));
                lemma_stake_remove(vm, pos as int);
                let p = pos as int;
                assert forall|i: int, j: int|
                    0 <= i < j < vm2.len() implies id_lt(vm2[i].validator, vm2[j].validator) by {
                    let i0 = if i < p { i } else { i + 1 };
                    let j0 = if j < p { j } else { j + 1 };
                    assert(vm2[i] == vm[i0] && vm2[j] == vm[j0]);
                    assert(id_lt(vm[i0].validator, vm[j0].validator));
                }
                assert(stake_of(vm2, validator@) == 0);
            }
        }
        Ok(())
    } else {
        if amount > 0 {
            Err(ContractError::InsufficientStake)
        } else {
            Ok(())
        }
    }
}

impl PoolState {
    /// Add `amount` to the stake recorded for `validator`, creating the
    /// entry when absent.  Everything but the ledger is untouched.
    pub fn upsert_val(&mut self, validator: &String, amount: u128)
        requires
            old(self)@.wf(),
            stake_of(old(self)@.vals, validator@) + amount <= u128::MAX,
        ensures
            final(self)@.wf(),
            stake_of(final(self)@.vals, validator@) == stake_of(old(self)@.vals, validator@)
                + amount,
            forall|x: Seq<char>|
                x != validator@ ==> stake_of(final(self)@.vals, x) == stake_of(old(self)@.vals, x),
            final(self)@.reward_balance == old(self)@.reward_balance,
            final(self)@.num_active_nfts == old(self)@.num_active_nfts,
            final(self)@.temp_balance == old(self)@.temp_balance,
            final(self)@.nfts == old(self)@.nfts,
    {
        ledger_upsert(&mut self.vals, validator, amount);
    }

    /// Subtract `amount` from the stake recorded for `validator`.  Fails
    /// with `InsufficientStake` and leaves the state unchanged when `amount`
    /// exceeds the recorded stake; removes the entry when it reaches zero.
    pub fn reduce_val_stake(&mut self, validator: &String, amount: u128) -> (r: Result<
        (),
        ContractError,
    >)
        requires
            old(self)@.wf(),
        ensures
            final(self)@.wf(),
            r is Err <==> amount > stake_of(old(self)@.vals, validator@),
            r is Err ==> r == Err::<(), ContractError>(ContractError::InsufficientStake)
                && final(self)@ == old(self)@,
            r is Ok ==> stake_of(final(self)@.vals, validator@) == stake_of(
                old(self)@.vals,
                validator@,
            ) - amount,
            r is Ok ==> forall|x: Seq<char>|
                x != validator@ ==> stake_of(final(self)@.vals, x) == stake_of(old(self)@.vals, x),
            final(self)@.reward_balance == old(self)@.reward_balance,
            final(self)@.num_active_nfts == old(self)@.num_active_nfts,
            final(self)@.temp_balance == old(self)@.temp_balance,
            final(self)@.nfts == old(self)@.nfts,
    {
        let r = ledger_reduce(&mut self.vals, validator, amount);
        r
    }

    /// A deterministic, ascending-by-identifier snapshot of the ledger.
    pub fn list_vals(&self) -> (r: Vec<ValidatorStake>)
        ensures
            vals_view(r@) == self@.vals,
    {
        copy_ledger(&self.vals)
    }
}

/// Entry-by-entry copy of the ledger, used to apply a delegation batch
/// all-or-nothing.
pub(crate) fn copy_ledger(vals: &Vec<ValidatorStake>) -> (r: Vec<ValidatorStake>)
    ensures
        vals_view(r@) == vals_view(vals@),
{
    let mut out: Vec<ValidatorStake> = Vec::new();
    let mut i: usize = 0;
    while i < vals.len()
        invariant
            i <= vals@.len(),
            out@.len() == i,
            forall|k: int| 0 <= k < i ==> out@[k]@ == vals@[k]@,
        decreases vals@.len() - i,
    {
        let e = &vals[i];
        out.push(
            ValidatorStake { validator: e.validator.clone(), delegated_amount: e.delegated_amount },
        );
        i = i + 1;
    }
    proof {
        assert(vals_view(out@) =~= vals_view(vals@));
    }
    out
}

/// Linear scan of the token table for `token_id`.
pub(crate) fn token_find(nfts: &Vec<TokenEntry>, token_id: &String) -> (r: (usize, bool))
    ensures
        r.1 <==> has_token(nfts_view(nfts@), token_id@),
        r.1 ==> r.0 < nfts@.len() && nfts_view(nfts@)[r.0 as int].token_id == token_id@,
{
    let mut i: usize = 0;
    while i < nfts.len()
        invariant
            i <= nfts@.len(),
            forall|k: int| 0 <= k < i ==> nfts_view(nfts@)[k].token_id != token_id@,
        decreases nfts@.len() - i,
    {
        if nfts[i].token_id == *token_id {
            proof {
                assert(nfts_view(nfts@)[i as int].token_id == token_id@);
                assert(has_token(nfts_view(nfts@), token_id@));
            }
            return (i, true);
        }
        i = i + 1;
    }
    proof {
        assert(!has_token(nfts_view(nfts@), token_id@));
    }
    (nfts.len(), false)
}

/// Appending a token adds one to the active count unless it is broken.
pub proof fn lemma_active_count_push(nfts: Seq<TokenModel>, t: TokenModel)
    ensures
        active_count(nfts.push(t)) == active_count(nfts) + (if t.broken {
            0nat
        } else {
            1nat
        }),
    decreases nfts.len(),
{
    if nfts.len() == 0 {
        assert(nfts.push(t).drop_first() =~= nfts);
    } else {
        assert(nfts.push(t).drop_first() =~= nfts.drop_first().push(t));
        lemma_active_count_push(nfts.drop_first(), t);
    }
}

/// Replacing the token at index `i` adjusts the active count by the change
/// in its broken flag.
pub proof fn lemma_active_count_update(nfts: Seq<TokenModel>, i: int, t: TokenModel)
    requires
        0 <= i < nfts.len(),
    ensures
        active_count(nfts.update(i, t)) + (if nfts[i].broken {
            0nat
        } else {
            1nat
        }) == active_count(nfts) + (if t.broken {
            0nat
        } else {
            1nat
        }),
    decreases nfts.len(),
{
    if i == 0 {
        assert(nfts.update(0, t).drop_first() =~= nfts.drop_first());
    } else {
        assert(nfts.update(i, t).drop_first() =~= nfts.drop_first().update(i - 1, t));
        lemma_active_count_update(nfts.drop_first(), i - 1, t);
    }
}

} // verus!
