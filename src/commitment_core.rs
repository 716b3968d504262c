use vstd::prelude::*;

use crate::access_control::{AccessControl, AccessControlError, AccessState, state_authorizes};
use crate::address::Address;
use crate::commitment_nft::{
    CommitmentNFTContract, ContractError, NftState, without, checked_expiry, expiry_of, has_token, is_valid_commitment_type,
    replaced, token_of, valid_commitment_type,
};
use crate::risk::{
    SECONDS_PER_DAY, drawdown_fits, drawdown_of, duration_violated, is_duration_violated,
    lemma_trunc_div_bounded, loss_violated,
};

verus! {

/// The risk policy attached to a commitment; fixed once the commitment exists.
#[derive(Debug)]
pub struct CommitmentRules {
    pub duration_days: u32,
    pub max_loss_percent: u32,
    pub commitment_type: String,
    pub early_exit_penalty: u32,
    pub min_fee_threshold: i128,
}

impl CommitmentRules {
    pub fn duplicate(&self) -> (r: CommitmentRules)
        ensures
            r == *self,
    {
        CommitmentRules {
            duration_days: self.duration_days,
            max_loss_percent: self.max_loss_percent,
            commitment_type: self.commitment_type.clone(),
            early_exit_penalty: self.early_exit_penalty,
            min_fee_threshold: self.min_fee_threshold,
        }
    }
}

/// `Active` is the initial state; the other three admit no further value updates.
#[derive(Copy, Clone, Debug, PartialEq, Eq, Structural)]
pub enum CommitmentStatus {
    Active,
    Violated,
    Settled,
    EarlyExited,
}

#[derive(Debug)]
pub struct Commitment {
    pub commitment_id: String,
    pub owner: Address,
    pub nft_token_id: u32,
    pub rules: CommitmentRules,
    pub amount: i128,
    pub asset_address: Address,
    pub created_at: u64,
    pub expires_at: u64,
    pub current_value: i128,
    pub status: CommitmentStatus,
    /// Part of the principal placed with outside pools; never above the principal.
    pub allocated_amount: i128,
}

impl Commitment {
    pub fn duplicate(&self) -> (r: Commitment)
        ensures
            r == *self,
    {
        Commitment {
            commitment_id: self.commitment_id.clone(),
            owner: self.owner.duplicate(),
            nft_token_id: self.nft_token_id,
            rules: self.rules.duplicate(),
            amount: self.amount,
            asset_address: self.asset_address.duplicate(),
            created_at: self.created_at,
            expires_at: self.expires_at,
            current_value: self.current_value,
            status: self.status,
            allocated_amount: self.allocated_amount,
        }
    }
}

/// Why a registry operation was rejected; a rejected operation changes nothing.
#[derive(Copy, Clone, Debug, PartialEq, Eq, Structural)]
pub enum CommitmentError {
    NotInitialized,
    AlreadyInitialized,
    Unauthorized,
    InvalidDuration,
    InvalidMaxLoss,
    InvalidCommitmentType,
    NotFound,
    AlreadyExists,
    InactiveCommitment,
    AlreadySettled,
    NotExpired,
    Expired,
    InvalidAmount,
    InsufficientBalance,
    AlreadyAuthorized,
    NotAuthorized,
    ReceiptLimit,
}

/// What a value update observed: the payload of its notification.
#[derive(Copy, Clone, Debug, PartialEq, Eq, Structural)]
pub struct ValueUpdate {
    pub old_value: i128,
    pub new_value: i128,
    pub drawdown_percent: i128,
    pub violated: bool,
}

/// A stored record is consistent: its drawdown is representable and its allocation bounded.
pub open spec fn record_wf(c: Commitment) -> bool {
    &&& drawdown_fits(c.amount as int, c.current_value as int)
    &&& 0 <= c.allocated_amount
    &&& (c.allocated_amount == 0 || c.allocated_amount <= c.amount)
}

pub open spec fn rules_valid(rules: CommitmentRules) -> bool {
    &&& rules.duration_days > 0
    &&& rules.max_loss_percent <= 100
    &&& valid_commitment_type(rules.commitment_type@)
}

/// What rule validation returns: the first rule broken, in the order duration, percent, category.
pub open spec fn rules_outcome(rules: CommitmentRules) -> Result<(), CommitmentError> {
    if rules.duration_days == 0 {
        Err(CommitmentError::InvalidDuration)
    } else if rules.max_loss_percent > 100 {
        Err(CommitmentError::InvalidMaxLoss)
    } else if !valid_commitment_type(rules.commitment_type@) {
        Err(CommitmentError::InvalidCommitmentType)
    } else {
        Ok(())
    }
}

/// Whether a commitment breaks its policy at `now`, recomputed from its stored values:
/// excess loss or reached expiry.
pub open spec fn violated_at(c: Commitment, now: int) -> bool {
    loss_violated(c.amount as int, c.current_value as int, c.rules.max_loss_percent as int)
        || duration_violated(now, c.expires_at as int)
}

/// Time left before expiry; zero once expired.
pub open spec fn time_remaining(c: Commitment, now: int) -> int {
    if now >= c.expires_at {
        0
    } else {
        c.expires_at - now
    }
}

/// The early-exit penalty: `penalty_percent` (capped at 100) of a positive value, rounded down.
pub open spec fn penalty_of(value: int, penalty_percent: int) -> int {
    if value <= 0 {
        0
    } else {
        value * (if penalty_percent > 100 { 100 } else { penalty_percent }) / 100
    }
}

/// What settlement releases to the owner: the current value, never below zero.
pub open spec fn payout_of(value: int) -> int {
    if value > 0 {
        value
    } else {
        0
    }
}

pub open spec fn ids_unique(cs: Seq<Commitment>) -> bool {
    forall|i: int, j: int|
        0 <= i < cs.len() && 0 <= j < cs.len() && i != j ==> #[trigger] cs[i].commitment_id@
            != #[trigger] cs[j].commitment_id@
}

pub open spec fn holds_id(cs: Seq<Commitment>, k: Seq<char>) -> bool {
    exists|i: int| 0 <= i < cs.len() && #[trigger] cs[i].commitment_id@ == k
}

pub open spec fn records_of(cs: Seq<Commitment>) -> Map<Seq<char>, Commitment> {
    Map::new(
        |k: Seq<char>| holds_id(cs, k),
        |k: Seq<char>| cs[choose|i: int| 0 <= i < cs.len() && #[trigger] cs[i].commitment_id@ == k],
    )
}

/// The abstract state of the registry: records keyed by commitment id.
pub struct CoreState {
    pub access: AccessState,
    pub nft_contract: Option<Seq<char>>,
    pub receipts: NftState,
    pub records: Map<Seq<char>, Commitment>,
}

/// Receipts after unlocking the one bound to `c`, where the ledger holds it.
pub open spec fn receipts_unlocked(r: NftState, c: Commitment) -> NftState {
    if r.admin is Some && has_token(r, c.nft_token_id as int) {
        replaced(
            r,
            c.nft_token_id as int,
            crate::commitment_nft::CommitmentNFT {
                is_active: false,
                ..token_of(r, c.nft_token_id as int)
            },
        )
    } else {
        r
    }
}

/// What early exit returns to the owner: the payout net of the penalty.
pub open spec fn exit_payout_of(value: int, penalty_percent: int) -> int {
    payout_of(value) - penalty_of(value, penalty_percent)
}

proof fn lemma_penalty_split(v: int, p: int)
    requires
        v >= 0,
        0 <= p <= 100,
    ensures
        (v / 100) * p + ((v % 100) * p) / 100 == v * p / 100,
        0 <= (v / 100) * p + ((v % 100) * p) / 100 <= v,
{
    let q = v / 100;
    let r = v % 100;
    assert(v == 100 * q + r && 0 <= r < 100 && q >= 0);
    assert(v * p == 100 * (q * p) + r * p) by (nonlinear_arith)
        requires
            v == 100 * q + r,
    ;
    assert((100 * (q * p) + r * p) / 100 == q * p + (r * p) / 100) by (nonlinear_arith)
        requires
            0 <= r < 100,
            0 <= p <= 100,
            q >= 0,
    ;
    assert(0 <= (r * p) / 100 <= r) by (nonlinear_arith)
        requires
            0 <= r < 100,
            0 <= p <= 100,
    ;
    assert(q * p <= q * 100) by (nonlinear_arith)
        requires
            q >= 0,
            p <= 100,
    ;
}

/// The outcome of a value update by `caller` at `now`: the first failing check, else what it
/// observed. The update is a violation on excess loss or on reached expiry.
pub open spec fn update_result(
    s: CoreState,
    caller: Seq<char>,
    id: Seq<char>,
    new_value: i128,
    now: u64,
) -> Result<
    ValueUpdate,
    CommitmentError,
> {
    if !state_authorizes(s.access, caller) {
        Err(CommitmentError::Unauthorized)
    } else if !s.records.contains_key(id) {
        Err(CommitmentError::NotFound)
    } else if s.records[id].status != CommitmentStatus::Active {
        Err(CommitmentError::InactiveCommitment)
    } else if !drawdown_fits(s.records[id].amount as int, new_value as int) {
        Err(CommitmentError::InvalidAmount)
    } else {
        let c = s.records[id];
        Ok(
            ValueUpdate {
                old_value: c.current_value,
                new_value,
                drawdown_percent: drawdown_of(c.amount as int, new_value as int) as i128,
                violated: loss_violated(c.amount as int, new_value as int, c.rules.max_loss_percent as int)
                    || duration_violated(now as int, c.expires_at as int),
            },
        )
    }
}

/// The registry after a value update: the new value always, and `Violated` on a violation.
pub open spec fn update_state(s: CoreState, caller: Seq<char>, id: Seq<char>, new_value: i128, now: u64) -> CoreState {
    match update_result(s, caller, id, new_value, now) {
        Ok(u) => CoreState {
            records: s.records.insert(
                id,
                Commitment {
                    current_value: new_value,
                    status: if u.violated {
                        CommitmentStatus::Violated
                    } else {
                        CommitmentStatus::Active
                    },
                    ..s.records[id]
                },
            ),
            ..s
        },
        Err(_) => s,
    }
}

/// Once a value update finds a violation, the commitment is `Violated` and every later value
/// update by an authorized caller is rejected as inactive.
pub proof fn lemma_violation_ends_updates(
    s: CoreState,
    caller: Seq<char>,
    id: Seq<char>,
    new_value: i128,
    now: u64,
    later_caller: Seq<char>,
    later_value: i128,
    later_now: u64,
)
    requires
        update_result(s, caller, id, new_value, now) is Ok,
        update_result(s, caller, id, new_value, now)->Ok_0.violated,
        state_authorizes(s.access, later_caller),
    ensures
        update_state(s, caller, id, new_value, now).records[id].status == CommitmentStatus::Violated,
        update_result(update_state(s, caller, id, new_value, now), later_caller, id, later_value, later_now) == Err::<
            ValueUpdate,
            CommitmentError,
        >(CommitmentError::InactiveCommitment),
{
}

/// The registry of commitments, with the access control that gates it and the receipts it issues.
pub struct CommitmentCoreContract {
    access: AccessControl,
    nft_contract: Option<Address>,
    nft: CommitmentNFTContract,
    commitments: Vec<Commitment>,
}

impl View for CommitmentCoreContract {
    type V = CoreState;

    closed spec fn view(&self) -> CoreState {
        CoreState {
            access: self.access@,
            nft_contract: match self.nft_contract {
                Some(a) => Some(a@),
                None => None,
            },
            receipts: self.nft@,
            records: records_of(self.commitments@),
        }
    }
}

proof fn lemma_records_index(cs: Seq<Commitment>, i: int)
    requires
        ids_unique(cs),
        0 <= i < cs.len(),
    ensures
        records_of(cs).contains_key(cs[i].commitment_id@),
        records_of(cs)[cs[i].commitment_id@] == cs[i],
{
    let k = cs[i].commitment_id@;
    assert(holds_id(cs, k));
    let j = choose|j: int| 0 <= j < cs.len() && #[trigger] cs[j].commitment_id@ == k;
    assert(j == i);
}

proof fn lemma_records_update(cs: Seq<Commitment>, i: int, c: Commitment)
    requires
        ids_unique(cs),
        0 <= i < cs.len(),
        c.commitment_id@ == cs[i].commitment_id@,
    ensures
        ids_unique(cs.update(i, c)),
        records_of(cs.update(i, c)) == records_of(cs).insert(c.commitment_id@, c),
{
    let ns = cs.update(i, c);
    assert forall|a: int, b: int|
        0 <= a < ns.len() && 0 <= b < ns.len() && a != b implies #[trigger] ns[a].commitment_id@
        != #[trigger] ns[b].commitment_id@ by {
        assert(cs[a].commitment_id@ != cs[b].commitment_id@);
    }
    let m1 = records_of(ns);
    let m2 = records_of(cs).insert(c.commitment_id@, c);
    assert forall|k: Seq<char>| m1.contains_key(k) == m2.contains_key(k) by {
        if holds_id(ns, k) {
            let j = choose|j: int| 0 <= j < ns.len() && #[trigger] ns[j].commitment_id@ == k;
            if j != i {
                assert(cs[j].commitment_id@ == k);
            }
        }
        if holds_id(cs, k) {
            let j = choose|j: int| 0 <= j < cs.len() && #[trigger] cs[j].commitment_id@ == k;
            if j != i {
                assert(ns[j].commitment_id@ == k);
            } else {
                assert(ns[i].commitment_id@ == k);
            }
        }
        if k == c.commitment_id@ {
            assert(ns[i].commitment_id@ == k);
        }
    }
    assert forall|k: Seq<char>| #[trigger] m1.contains_key(k) implies m1[k] == m2[k] by {
        let j = choose|j: int| 0 <= j < ns.len() && #[trigger] ns[j].commitment_id@ == k;
        lemma_records_index(ns, j);
        if j == i {
            assert(m1[k] == c);
        } else {
            assert(cs[j].commitment_id@ == k);
            lemma_records_index(cs, j);
        }
    }
    assert(m1 =~= m2);
}

proof fn lemma_records_push(cs: Seq<Commitment>, c: Commitment)
    requires
        ids_unique(cs),
        !records_of(cs).contains_key(c.commitment_id@),
    ensures
        ids_unique(cs.push(c)),
        records_of(cs.push(c)) == records_of(cs).insert(c.commitment_id@, c),
{
    let ns = cs.push(c);
    assert forall|a: int, b: int|
        0 <= a < ns.len() && 0 <= b < ns.len() && a != b implies #[trigger] ns[a].commitment_id@
        != #[trigger] ns[b].commitment_id@ by {
        if a < cs.len() && b < cs.len() {
            assert(cs[a].commitment_id@ != cs[b].commitment_id@);
        } else if a < cs.len() {
            assert(cs[a].commitment_id@ != c.commitment_id@) by {
                if cs[a].commitment_id@ == c.commitment_id@ {
                    assert(holds_id(cs, c.commitment_id@));
                }
            }
        } else {
            assert(cs[b].commitment_id@ != c.commitment_id@) by {
                if cs[b].commitment_id@ == c.commitment_id@ {
                    assert(holds_id(cs, c.commitment_id@));
                }
            }
        }
    }
    let m1 = records_of(ns);
    let m2 = records_of(cs).insert(c.commitment_id@, c);
    assert forall|k: Seq<char>| m1.contains_key(k) == m2.contains_key(k) by {
        if holds_id(ns, k) {
            let j = choose|j: int| 0 <= j < ns.len() && #[trigger] ns[j].commitment_id@ == k;
            if j < cs.len() {
                assert(cs[j].commitment_id@ == k);
            }
        }
        if holds_id(cs, k) {
            let j = choose|j: int| 0 <= j < cs.len() && #[trigger] cs[j].commitment_id@ == k;
            assert(ns[j].commitment_id@ == k);
        }
        if k == c.commitment_id@ {
            assert(ns[cs.len() as int].commitment_id@ == k);
        }
    }
    assert forall|k: Seq<char>| #[trigger] m1.contains_key(k) implies m1[k] == m2[k] by {
        let j = choose|j: int| 0 <= j < ns.len() && #[trigger] ns[j].commitment_id@ == k;
        lemma_records_index(ns, j);
        if j < cs.len() {
            assert(cs[j].commitment_id@ == k);
            lemma_records_index(cs, j);
        }
    }
    assert(m1 =~= m2);
}

impl CommitmentCoreContract {
    /// Record ids are unique and every record is consistent.
    pub closed spec fn wf(&self) -> bool {
        &&& ids_unique(self.commitments@)
        &&& forall|i: int| 0 <= i < self.commitments@.len() ==> record_wf(#[trigger] self.commitments@[i])
        &&& self.nft.wf()
        &&& (self.access@.admin is Some <==> self.nft@.admin is Some)
    }

    /// An empty registry that nobody administers yet.
    pub fn new() -> (r: CommitmentCoreContract)
        ensures
            r.wf(),
            r@.access.admin is None,
            r@.access.whitelist == Set::<Seq<char>>::empty(),
            r@.nft_contract is None,
            r@.records == Map::<Seq<char>, Commitment>::empty(),
    {
        let r = CommitmentCoreContract {
            access: AccessControl::new(),
            nft_contract: None,
            nft: CommitmentNFTContract::new(),
            commitments: Vec::new(),
        };
        assert(r@.records =~= Map::<Seq<char>, Commitment>::empty());
        r
    }

    /// Sets the admin and the receipt contract; at most once.
    pub fn initialize(&mut self, admin: Address, nft_contract: Address) -> (r: Result<(), CommitmentError>)
        requires
            old(self).wf(),
        ensures
            final(self).wf(),
            old(self)@.access.admin is Some ==> r == Err::<(), CommitmentError>(
                CommitmentError::AlreadyInitialized,
            ) && final(self)@ == old(self)@,
            old(self)@.access.admin is None ==> r is Ok && final(self)@.access == (AccessState {
                admin: Some(admin@),
                ..old(self)@.access
            }) && final(self)@.nft_contract == Some(nft_contract@) && final(self)@.records
                == old(self)@.records && final(self)@.receipts.tokens == old(self)@.receipts.tokens,
    {
        if self.access.get_admin().is_ok() {
            return Err(CommitmentError::AlreadyInitialized);
        }
        let nft_admin = admin.duplicate();
        let _ = self.access.init_admin(admin);
        let _ = self.nft.initialize(nft_admin);
        self.nft_contract = Some(nft_contract);
        Ok(())
    }

    pub fn get_admin(&self) -> (r: Result<Address, CommitmentError>)
        ensures
            match self@.access.admin {
                Some(a) => r matches Ok(x) && x@ == a,
                None => r == Err::<Address, CommitmentError>(CommitmentError::NotInitialized),
            },
    {
        match self.access.get_admin() {
            Ok(a) => Ok(a),
            Err(_) => Err(CommitmentError::NotInitialized),
        }
    }

    pub fn get_nft_contract(&self) -> (r: Result<Address, CommitmentError>)
        ensures
            match self@.nft_contract {
                Some(a) => r matches Ok(x) && x@ == a,
                None => r == Err::<Address, CommitmentError>(CommitmentError::NotInitialized),
            },
    {
        match &self.nft_contract {
            Some(a) => Ok(a.duplicate()),
            None => Err(CommitmentError::NotInitialized),
        }
    }

    pub fn is_admin(&self, caller: &Address) -> (r: bool)
        ensures
            r == (self@.access.admin == Some(caller@)),
    {
        self.access.is_admin(caller)
    }

    /// The admin and whitelisted updaters may change commitment values.
    pub fn is_authorized_updater(&self, caller: &Address) -> (r: bool)
        ensures
            r == state_authorizes(self@.access, caller@),
    {
        self.access.is_authorized(caller)
    }

    /// Admin only: whitelists `updater`.
    pub fn add_authorized_updater(&mut self, caller: &Address, updater: Address) -> (r: Result<(), CommitmentError>)
        requires
            old(self).wf(),
        ensures
            final(self).wf(),
            old(self)@.access.admin != Some(caller@) ==> r == Err::<(), CommitmentError>(
                CommitmentError::Unauthorized,
            ),
            old(self)@.access.admin == Some(caller@) && state_authorizes(old(self)@.access, updater@)
                ==> r == Err::<(), CommitmentError>(CommitmentError::AlreadyAuthorized),
            r is Err ==> final(self)@ == old(self)@,
            r is Ok <==> old(self)@.access.admin == Some(caller@) && !state_authorizes(
                old(self)@.access,
                updater@,
            ),
            r is Ok ==> final(self)@ == (CoreState {
                access: AccessState {
                    whitelist: old(self)@.access.whitelist.insert(updater@),
                    ..old(self)@.access
                },
                ..old(self)@
            }),
    {
        match self.access.add_authorized_contract(caller, updater) {
            Ok(()) => Ok(()),
            Err(AccessControlError::AlreadyAuthorized) => Err(CommitmentError::AlreadyAuthorized),
            Err(_) => Err(CommitmentError::Unauthorized),
        }
    }

    /// Admin only: takes `updater` off the whitelist.
    pub fn remove_authorized_updater(&mut self, caller: &Address, updater: &Address) -> (r: Result<(), CommitmentError>)
        requires
            old(self).wf(),
        ensures
            final(self).wf(),
            old(self)@.access.admin != Some(caller@) ==> r == Err::<(), CommitmentError>(
                CommitmentError::Unauthorized,
            ),
            old(self)@.access.admin == Some(caller@) && !state_authorizes(old(self)@.access, updater@)
                ==> r == Err::<(), CommitmentError>(CommitmentError::NotAuthorized),
            r is Err ==> final(self)@ == old(self)@,
            r is Ok <==> old(self)@.access.admin == Some(caller@) && state_authorizes(
                old(self)@.access,
                updater@,
            ),
            r is Ok ==> final(self)@ == (CoreState {
                access: AccessState {
                    whitelist: old(self)@.access.whitelist.remove(updater@),
                    ..old(self)@.access
                },
                ..old(self)@
            }),
    {
        match self.access.remove_authorized_contract(caller, updater) {
            Ok(()) => Ok(()),
            Err(AccessControlError::NotAuthorized) => Err(CommitmentError::NotAuthorized),
            Err(_) => Err(CommitmentError::Unauthorized),
        }
    }

    fn find_index(&self, commitment_id: &String) -> (r: Option<usize>)
        requires
            self.wf(),
        ensures
            r is None ==> !self@.records.contains_key(commitment_id@),
            r matches Some(i) ==> i < self.commitments@.len() && self.commitments@[i as int].commitment_id@
                == commitment_id@ && self@.records.contains_key(commitment_id@)
                && self@.records[commitment_id@] == self.commitments@[i as int],
    {
        let mut i: usize = 0;
        while i < self.commitments.len()
            invariant
                self.wf(),
                i <= self.commitments@.len(),
                forall|j: int| 0 <= j < i ==> #[trigger] self.commitments@[j].commitment_id@ != commitment_id@,
            decreases self.commitments@.len() - i,
        {
            if self.commitments[i].commitment_id == *commitment_id {
                proof {
                    lemma_records_index(self.commitments@, i as int);
                }
                return Some(i);
            }
            i += 1;
        }
        None
    }

    fn put_record(&mut self, i: usize, c: Commitment)
        requires
            old(self).wf(),
            i < old(self).commitments@.len(),
            c.commitment_id@ == old(self).commitments@[i as int].commitment_id@,
            record_wf(c),
        ensures
            final(self).wf(),
            final(self)@ == (CoreState { records: old(self)@.records.insert(c.commitment_id@, c), ..old(self)@ }),
    {
        proof {
            lemma_records_update(self.commitments@, i as int, c);
        }
        self.commitments.set(i, c);
    }

    /// Puts a record as persisted storage holds it, replacing any record with the same id.
    pub fn store_commitment(&mut self, commitment: Commitment)
        requires
            old(self).wf(),
            record_wf(commitment),
        ensures
            final(self).wf(),
            final(self)@ == (CoreState {
                records: old(self)@.records.insert(commitment.commitment_id@, commitment),
                ..old(self)@
            }),
    {
        match self.find_index(&commitment.commitment_id) {
            Some(i) => self.put_record(i, commitment),
            None => {
                proof {
                    lemma_records_push(self.commitments@, commitment);
                }
                self.commitments.push(commitment);
            },
        }
    }

    pub fn get_commitment(&self, commitment_id: &String) -> (r: Result<&Commitment, CommitmentError>)
        requires
            self.wf(),
        ensures
            self@.records.contains_key(commitment_id@) ==> (r matches Ok(c) && *c == self@.records[commitment_id@]),
            !self@.records.contains_key(commitment_id@) ==> (r matches Err(e) && e == CommitmentError::NotFound),
    {
        match self.find_index(commitment_id) {
            Some(i) => Ok(&self.commitments[i]),
            None => Err(CommitmentError::NotFound),
        }
    }

    /// `((initial - current) * 100) / initial`, truncated toward zero; zero when `initial` is zero.
    pub fn calculate_drawdown_percent(initial_value: i128, current_value: i128) -> (r: i128)
        requires
            drawdown_fits(initial_value as int, current_value as int),
        ensures
            r == drawdown_of(initial_value as int, current_value as int),
            initial_value == 0 ==> r == 0,
    {
        if initial_value == 0 {
            return 0;
        }
        let loss: i128 = initial_value - current_value;
        let scaled: i128 = loss * 100;
        proof {
            lemma_trunc_div_bounded(scaled as int, initial_value as int);
        }
        match scaled.checked_div(initial_value) {
            Some(q) => q,
            None => {
                proof {
                    assert(scaled != i128::MIN);
                }
                0
            },
        }
    }

    /// Whether the drawdown strictly exceeds `max_loss_percent`; never with zero initial value.
    pub fn check_violation(initial_value: i128, current_value: i128, max_loss_percent: u32) -> (r: bool)
        requires
            drawdown_fits(initial_value as int, current_value as int),
        ensures
            r == loss_violated(initial_value as int, current_value as int, max_loss_percent as int),
    {
        if initial_value == 0 {
            return false;
        }
        let drawdown_percent = Self::calculate_drawdown_percent(initial_value, current_value);
        let max_loss = max_loss_percent as i128;
        drawdown_percent > max_loss
    }

    /// Excess loss or reached expiry: either one breaks the policy.
    pub fn has_violation(
        initial_value: i128,
        current_value: i128,
        max_loss_percent: u32,
        now: u64,
        expires_at: u64,
    ) -> (r: bool)
        requires
            drawdown_fits(initial_value as int, current_value as int),
        ensures
            r == (loss_violated(initial_value as int, current_value as int, max_loss_percent as int)
                || duration_violated(now as int, expires_at as int)),
    {
        Self::check_violation(initial_value, current_value, max_loss_percent) || is_duration_violated(
            now,
            expires_at,
        )
    }

    /// Checks the rules at creation: positive duration, a percent in 0..=100, a known category.
    pub fn validate_rules(rules: &CommitmentRules) -> (r: Result<(), CommitmentError>)
        ensures
            r == rules_outcome(*rules),
            r is Ok <==> rules_valid(*rules),
    {
        if rules.duration_days == 0 {
            return Err(CommitmentError::InvalidDuration);
        }
        if rules.max_loss_percent > 100 {
            return Err(CommitmentError::InvalidMaxLoss);
        }
        if !is_valid_commitment_type(&rules.commitment_type) {
            return Err(CommitmentError::InvalidCommitmentType);
        }
        Ok(())
    }
}

fn fits_drawdown(initial_value: i128, current_value: i128) -> (r: bool)
    ensures
        r == drawdown_fits(initial_value as int, current_value as int),
{
    if initial_value == 0 {
        return true;
    }
    match initial_value.checked_sub(current_value) {
        Some(loss) => loss.checked_mul(100).is_some(),
        None => false,
    }
}

fn early_exit_penalty(value: i128, penalty_percent: u32) -> (r: i128)
    ensures
        r == penalty_of(value as int, penalty_percent as int),
        0 <= r <= payout_of(value as int),
{
    if value <= 0 {
        return 0;
    }
    let p: u128 = if penalty_percent > 100 {
        100
    } else {
        penalty_percent as u128
    };
    let v: u128 = value as u128;
    proof {
        lemma_penalty_split(v as int, p as int);
    }
    let q: u128 = v / 100;
    let rem: u128 = v % 100;
    assert(rem * p <= 10000) by (nonlinear_arith)
        requires
            rem < 100,
            p <= 100,
    ;
    let pen: u128 = q * p + rem * p / 100;
    pen as i128
}

impl CommitmentCoreContract {
    /// Opens a commitment of `amount` under `rules`, issuing its locked receipt to `owner`.
    pub fn create_commitment(
        &mut self,
        commitment_id: String,
        owner: Address,
        amount: i128,
        asset_address: Address,
        rules: CommitmentRules,
        now: u64,
    ) -> (r: Result<u32, CommitmentError>)
        requires
            old(self).wf(),
        ensures
            final(self).wf(),
            r is Err ==> final(self)@ == old(self)@,
            old(self)@.access.admin is None ==> r == Err::<u32, CommitmentError>(CommitmentError::NotInitialized),
            old(self)@.access.admin is Some && !rules_valid(rules) ==> (rules_outcome(rules) matches Err(e)
                && r == Err::<u32, CommitmentError>(e)),
            old(self)@.access.admin is Some && rules_valid(rules) && amount <= 0 ==> r == Err::<
                u32,
                CommitmentError,
            >(CommitmentError::InvalidAmount),
            old(self)@.access.admin is Some && rules_valid(rules) && amount > 0
                && old(self)@.records.contains_key(commitment_id@) ==> r == Err::<u32, CommitmentError>(
                CommitmentError::AlreadyExists,
            ),
            old(self)@.access.admin is Some && rules_valid(rules) && amount > 0
                && !old(self)@.records.contains_key(commitment_id@) && expiry_of(
                now as int,
                rules.duration_days as int,
            ) > u64::MAX ==> r == Err::<u32, CommitmentError>(CommitmentError::InvalidDuration),
            old(self)@.access.admin is Some && rules_valid(rules) && amount > 0
                && !old(self)@.records.contains_key(commitment_id@) && expiry_of(
                now as int,
                rules.duration_days as int,
            ) <= u64::MAX && old(self)@.receipts.tokens.len() >= u32::MAX ==> r == Err::<
                u32,
                CommitmentError,
            >(CommitmentError::ReceiptLimit),
            r is Ok <==> old(self)@.access.admin is Some && rules_valid(rules) && amount > 0
                && !old(self)@.records.contains_key(commitment_id@) && expiry_of(
                now as int,
                rules.duration_days as int,
            ) <= u64::MAX && old(self)@.receipts.tokens.len() < u32::MAX,
            r is Ok ==> final(self)@.records.contains_key(commitment_id@) && ({
                let c = final(self)@.records[commitment_id@];
                &&& c.status == CommitmentStatus::Active
                &&& c.current_value == c.amount
                &&& c.amount == amount
                &&& c.created_at == now
                &&& c.expires_at == c.created_at + rules.duration_days * SECONDS_PER_DAY
            }),
            r matches Ok(t) ==> {
                &&& t == old(self)@.receipts.tokens.len() + 1
                &&& final(self)@.records == old(self)@.records.insert(
                    commitment_id@,
                    Commitment {
                        commitment_id,
                        owner,
                        nft_token_id: t,
                        rules,
                        amount,
                        asset_address,
                        created_at: now,
                        expires_at: expiry_of(now as int, rules.duration_days as int) as u64,
                        current_value: amount,
                        status: CommitmentStatus::Active,
                        allocated_amount: 0,
                    },
                )
                &&& final(self)@.access == old(self)@.access
                &&& final(self)@.nft_contract == old(self)@.nft_contract
                &&& final(self)@.receipts.admin == old(self)@.receipts.admin
                &&& final(self)@.receipts.tokens.drop_last() == old(self)@.receipts.tokens
                &&& has_token(final(self)@.receipts, t as int)
                &&& token_of(final(self)@.receipts, t as int).owner == owner
                &&& token_of(final(self)@.receipts, t as int).metadata.commitment_id == commitment_id
                &&& token_of(final(self)@.receipts, t as int).is_active
            },
    {
        if self.access.get_admin().is_err() {
            return Err(CommitmentError::NotInitialized);
        }
        Self::validate_rules(&rules)?;
        if amount <= 0 {
            return Err(CommitmentError::InvalidAmount);
        }
        if self.find_index(&commitment_id).is_some() {
            return Err(CommitmentError::AlreadyExists);
        }
        let expires_at = match checked_expiry(now, rules.duration_days) {
            Some(t) => t,
            None => {
                return Err(CommitmentError::InvalidDuration);
            },
        };
        let minted = self.nft.mint(
            owner.duplicate(),
            commitment_id.clone(),
            rules.duration_days,
            rules.max_loss_percent,
            rules.commitment_type.clone(),
            amount,
            asset_address.duplicate(),
            now,
        );
        let token_id = match minted {
            Ok(t) => t,
            Err(_) => {
                return Err(CommitmentError::ReceiptLimit);
            },
        };
        let c = Commitment {
            commitment_id,
            owner,
            nft_token_id: token_id,
            rules,
            amount,
            asset_address,
            created_at: now,
            expires_at,
            current_value: amount,
            status: CommitmentStatus::Active,
            allocated_amount: 0,
        };
        proof {
            lemma_records_push(self.commitments@, c);
            assert(self.nft@.tokens.drop_last() =~= old(self).nft@.tokens);
        }
        self.commitments.push(c);
        Ok(token_id)
    }

    /// The receipt ledger, for queries.
    pub fn receipts(&self) -> (r: &CommitmentNFTContract)
        requires
            self.wf(),
        ensures
            r@ == self@.receipts,
            r.wf(),
    {
        &self.nft
    }

    /// The holder `from` moves an unlocked receipt to `to`; locked receipts stay put.
    pub fn transfer_receipt(&mut self, from: &Address, to: Address, token_id: u32) -> (r: Result<
        (),
        ContractError,
    >)
        requires
            old(self).wf(),
        ensures
            final(self).wf(),
            final(self)@.records == old(self)@.records,
            final(self)@.access == old(self)@.access,
            final(self)@.nft_contract == old(self)@.nft_contract,
            r is Err ==> final(self)@ == old(self)@,
            r is Ok <==> old(self)@.receipts.admin is Some && from@ != to@ && has_token(
                old(self)@.receipts,
                token_id as int,
            ) && token_of(old(self)@.receipts, token_id as int).owner@ == from@ && !token_of(
                old(self)@.receipts,
                token_id as int,
            ).is_active,
            r is Ok ==> final(self)@.receipts == (NftState {
                order: without(old(self)@.receipts.order, token_id).push(token_id),
                ..replaced(
                    old(self)@.receipts,
                    token_id as int,
                    crate::commitment_nft::CommitmentNFT {
                        owner: to,
                        ..token_of(old(self)@.receipts, token_id as int)
                    },
                )
            }),
    {
        self.nft.transfer(from, to, token_id)
    }

    /// Records a new valuation at `now`. A loss beyond the rules' limit, or a reached expiry,
    /// marks the commitment `Violated`.
    pub fn update_value(&mut self, caller: &Address, commitment_id: &String, new_value: i128, now: u64) -> (r: Result<
        ValueUpdate,
        CommitmentError,
    >)
        requires
            old(self).wf(),
        ensures
            final(self).wf(),
            r == update_result(old(self)@, caller@, commitment_id@, new_value, now),
            final(self)@ == update_state(old(self)@, caller@, commitment_id@, new_value, now),
    {
        if !self.access.is_authorized(caller) {
            return Err(CommitmentError::Unauthorized);
        }
        let i = match self.find_index(commitment_id) {
            Some(i) => i,
            None => {
                return Err(CommitmentError::NotFound);
            },
        };
        let c = self.commitments[i].duplicate();
        if c.status != CommitmentStatus::Active {
            return Err(CommitmentError::InactiveCommitment);
        }
        if !fits_drawdown(c.amount, new_value) {
            return Err(CommitmentError::InvalidAmount);
        }
        let old_value = c.current_value;
        let drawdown_percent = Self::calculate_drawdown_percent(c.amount, new_value);
        let violated = Self::has_violation(c.amount, new_value, c.rules.max_loss_percent, now, c.expires_at);
        let status = if violated {
            CommitmentStatus::Violated
        } else {
            CommitmentStatus::Active
        };
        let updated = Commitment { current_value: new_value, status, ..c };
        self.put_record(i, updated);
        Ok(ValueUpdate { old_value, new_value, drawdown_percent, violated })
    }

    fn found_record(&self, commitment_id: &String) -> (r: Result<usize, CommitmentError>)
        requires
            self.wf(),
        ensures
            self@.records.contains_key(commitment_id@) ==> (r matches Ok(i) && i < self.commitments@.len()
                && self.commitments@[i as int] == self@.records[commitment_id@] && record_wf(
                self@.records[commitment_id@],
            )),
            !self@.records.contains_key(commitment_id@) ==> r == Err::<usize, CommitmentError>(
                CommitmentError::NotFound,
            ),
    {
        match self.find_index(commitment_id) {
            Some(i) => Ok(i),
            None => Err(CommitmentError::NotFound),
        }
    }

    /// Re-evaluates the policy at `now` from the stored values, not the cached status:
    /// excess loss or reached expiry.
    pub fn check_violations(&self, commitment_id: &String, now: u64) -> (r: Result<bool, CommitmentError>)
        requires
            self.wf(),
        ensures
            self@.records.contains_key(commitment_id@) ==> r == Ok::<bool, CommitmentError>(
                violated_at(self@.records[commitment_id@], now as int),
            ),
            !self@.records.contains_key(commitment_id@) ==> r == Err::<bool, CommitmentError>(
                CommitmentError::NotFound,
            ),
    {
        let i = self.found_record(commitment_id)?;
        let c = &self.commitments[i];
        Ok(Self::has_violation(c.amount, c.current_value, c.rules.max_loss_percent, now, c.expires_at))
    }

    /// `(has_violations, loss_violated, duration_violated, loss_percent, time_remaining)` at `now`.
    pub fn get_violation_details(&self, commitment_id: &String, now: u64) -> (r: Result<
        (bool, bool, bool, i128, u64),
        CommitmentError,
    >)
        requires
            self.wf(),
        ensures
            self@.records.contains_key(commitment_id@) ==> ({
                let c = self@.records[commitment_id@];
                r == Ok::<(bool, bool, bool, i128, u64), CommitmentError>(
                    (
                        violated_at(c, now as int),
                        loss_violated(c.amount as int, c.current_value as int, c.rules.max_loss_percent as int),
                        duration_violated(now as int, c.expires_at as int),
                        drawdown_of(c.amount as int, c.current_value as int) as i128,
                        time_remaining(c, now as int) as u64,
                    ),
                )
            }),
            !self@.records.contains_key(commitment_id@) ==> r == Err::<
                (bool, bool, bool, i128, u64),
                CommitmentError,
            >(CommitmentError::NotFound),
    {
        let i = self.found_record(commitment_id)?;
        let c = &self.commitments[i];
        let loss_violated = Self::check_violation(c.amount, c.current_value, c.rules.max_loss_percent);
        let duration_violated = is_duration_violated(now, c.expires_at);
        let has_violations = loss_violated || duration_violated;
        let loss_percent = Self::calculate_drawdown_percent(c.amount, c.current_value);
        let time_remaining: u64 = if duration_violated {
            0
        } else {
            c.expires_at - now
        };
        Ok((has_violations, loss_violated, duration_violated, loss_percent, time_remaining))
    }

    fn unlock_receipt(&mut self, token_id: u32)
        requires
            old(self).wf(),
        ensures
            final(self).wf(),
            final(self).commitments == old(self).commitments,
            final(self).access == old(self).access,
            final(self).nft_contract == old(self).nft_contract,
            final(self)@.receipts == if old(self)@.receipts.admin is Some && has_token(
                old(self)@.receipts,
                token_id as int,
            ) {
                replaced(
                    old(self)@.receipts,
                    token_id as int,
                    crate::commitment_nft::CommitmentNFT {
                        is_active: false,
                        ..token_of(old(self)@.receipts, token_id as int)
                    },
                )
            } else {
                old(self)@.receipts
            },
    {
        if self.nft.token_exists(token_id) {
            let _ = self.nft.settle(token_id);
        }
    }

    /// Closes an expired commitment for its owner or an authorized party, unlocks its receipt,
    /// and returns what is released to the owner.
    pub fn settle(&mut self, caller: &Address, commitment_id: &String, now: u64) -> (r: Result<i128, CommitmentError>)
        requires
            old(self).wf(),
        ensures
            final(self).wf(),
            r is Err ==> final(self)@ == old(self)@,
            !old(self)@.records.contains_key(commitment_id@) ==> r == Err::<i128, CommitmentError>(
                CommitmentError::NotFound,
            ),
            old(self)@.records.contains_key(commitment_id@) ==> ({
                let c = old(self)@.records[commitment_id@];
                let allowed = caller@ == c.owner@ || state_authorizes(old(self)@.access, caller@);
                let open = c.status == CommitmentStatus::Active || c.status == CommitmentStatus::Violated;
                &&& !allowed ==> r == Err::<i128, CommitmentError>(CommitmentError::Unauthorized)
                &&& allowed && !open ==> r == Err::<i128, CommitmentError>(CommitmentError::AlreadySettled)
                &&& allowed && open && now < c.expires_at ==> r == Err::<i128, CommitmentError>(
                    CommitmentError::NotExpired,
                )
                &&& r is Ok <==> allowed && open && now >= c.expires_at
                &&& r is Ok ==> r == Ok::<i128, CommitmentError>(payout_of(c.current_value as int) as i128)
                    && final(self)@ == (CoreState {
                    records: old(self)@.records.insert(
                        commitment_id@,
                        Commitment { status: CommitmentStatus::Settled, ..c },
                    ),
                    receipts: receipts_unlocked(old(self)@.receipts, c),
                    ..old(self)@
                })
            }),
    {
        let i = self.found_record(commitment_id)?;
        let c = self.commitments[i].duplicate();
        if !c.owner.equals(caller) && !self.access.is_authorized(caller) {
            return Err(CommitmentError::Unauthorized);
        }
        if c.status == CommitmentStatus::Settled || c.status == CommitmentStatus::EarlyExited {
            return Err(CommitmentError::AlreadySettled);
        }
        if now < c.expires_at {
            return Err(CommitmentError::NotExpired);
        }
        let payout: i128 = if c.current_value > 0 {
            c.current_value
        } else {
            0
        };
        let token_id = c.nft_token_id;
        let updated = Commitment { status: CommitmentStatus::Settled, ..c };
        self.put_record(i, updated);
        self.unlock_receipt(token_id);
        Ok(payout)
    }

    /// The owner leaves an active commitment before expiry; returns `(payout, penalty)`.
    pub fn early_exit(&mut self, caller: &Address, commitment_id: &String, now: u64) -> (r: Result<
        (i128, i128),
        CommitmentError,
    >)
        requires
            old(self).wf(),
        ensures
            final(self).wf(),
            r is Err ==> final(self)@ == old(self)@,
            !old(self)@.records.contains_key(commitment_id@) ==> r == Err::<(i128, i128), CommitmentError>(
                CommitmentError::NotFound,
            ),
            old(self)@.records.contains_key(commitment_id@) ==> ({
                let c = old(self)@.records[commitment_id@];
                let penalty = penalty_of(c.current_value as int, c.rules.early_exit_penalty as int);
                &&& caller@ != c.owner@ ==> r == Err::<(i128, i128), CommitmentError>(
                    CommitmentError::Unauthorized,
                )
                &&& caller@ == c.owner@ && c.status != CommitmentStatus::Active ==> r == Err::<
                    (i128, i128),
                    CommitmentError,
                >(CommitmentError::InactiveCommitment)
                &&& caller@ == c.owner@ && c.status == CommitmentStatus::Active && now >= c.expires_at
                    ==> r == Err::<(i128, i128), CommitmentError>(CommitmentError::Expired)
                &&& r is Ok <==> caller@ == c.owner@ && c.status == CommitmentStatus::Active && now
                    < c.expires_at
                &&& r is Ok ==> r == Ok::<(i128, i128), CommitmentError>(
                    (
                        exit_payout_of(c.current_value as int, c.rules.early_exit_penalty as int) as i128,
                        penalty as i128,
                    ),
                ) && final(self)@ == (CoreState {
                    records: old(self)@.records.insert(
                        commitment_id@,
                        Commitment { status: CommitmentStatus::EarlyExited, ..c },
                    ),
                    receipts: receipts_unlocked(old(self)@.receipts, c),
                    ..old(self)@
                })
            }),
    {
        let i = self.found_record(commitment_id)?;
        let c = self.commitments[i].duplicate();
        if !c.owner.equals(caller) {
            return Err(CommitmentError::Unauthorized);
        }
        if c.status != CommitmentStatus::Active {
            return Err(CommitmentError::InactiveCommitment);
        }
        if now >= c.expires_at {
            return Err(CommitmentError::Expired);
        }
        let penalty = early_exit_penalty(c.current_value, c.rules.early_exit_penalty);
        let gross: i128 = if c.current_value > 0 {
            c.current_value
        } else {
            0
        };
        let payout: i128 = gross - penalty;
        let token_id = c.nft_token_id;
        let updated = Commitment { status: CommitmentStatus::EarlyExited, ..c };
        self.put_record(i, updated);
        self.unlock_receipt(token_id);
        Ok((payout, penalty))
    }

    /// Authorized callers place `amount` of an active commitment's principal with an outside pool.
    pub fn allocate(&mut self, caller: &Address, commitment_id: &String, amount: i128) -> (r: Result<
        (),
        CommitmentError,
    >)
        requires
            old(self).wf(),
        ensures
            final(self).wf(),
            r is Err ==> final(self)@ == old(self)@,
            !state_authorizes(old(self)@.access, caller@) ==> r == Err::<(), CommitmentError>(
                CommitmentError::Unauthorized,
            ),
            state_authorizes(old(self)@.access, caller@) && !old(self)@.records.contains_key(commitment_id@)
                ==> r == Err::<(), CommitmentError>(CommitmentError::NotFound),
            state_authorizes(old(self)@.access, caller@) && old(self)@.records.contains_key(commitment_id@)
                ==> ({
                let c = old(self)@.records[commitment_id@];
                &&& c.status != CommitmentStatus::Active ==> r == Err::<(), CommitmentError>(
                    CommitmentError::InactiveCommitment,
                )
                &&& c.status == CommitmentStatus::Active && amount <= 0 ==> r == Err::<(), CommitmentError>(
                    CommitmentError::InvalidAmount,
                )
                &&& c.status == CommitmentStatus::Active && amount > 0 && c.allocated_amount + amount
                    > c.amount ==> r == Err::<(), CommitmentError>(CommitmentError::InsufficientBalance)
                &&& r is Ok <==> c.status == CommitmentStatus::Active && amount > 0 && c.allocated_amount
                    + amount <= c.amount
                &&& r is Ok ==> final(self)@ == (CoreState {
                    records: old(self)@.records.insert(
                        commitment_id@,
                        Commitment { allocated_amount: (c.allocated_amount + amount) as i128, ..c },
                    ),
                    ..old(self)@
                })
            }),
    {
        if !self.access.is_authorized(caller) {
            return Err(CommitmentError::Unauthorized);
        }
        let i = self.found_record(commitment_id)?;
        let c = self.commitments[i].duplicate();
        if c.status != CommitmentStatus::Active {
            return Err(CommitmentError::InactiveCommitment);
        }
        if amount <= 0 {
            return Err(CommitmentError::InvalidAmount);
        }
        if amount > c.amount - c.allocated_amount {
            return Err(CommitmentError::InsufficientBalance);
        }
        let allocated_amount = c.allocated_amount + amount;
        let updated = Commitment { allocated_amount, ..c };
        self.put_record(i, updated);
        Ok(())
    }

    /// Authorized callers return `amount` of what an active commitment has placed.
    pub fn deallocate(&mut self, caller: &Address, commitment_id: &String, amount: i128) -> (r: Result<
        (),
        CommitmentError,
    >)
        requires
            old(self).wf(),
        ensures
            final(self).wf(),
            r is Err ==> final(self)@ == old(self)@,
            !state_authorizes(old(self)@.access, caller@) ==> r == Err::<(), CommitmentError>(
                CommitmentError::Unauthorized,
            ),
            state_authorizes(old(self)@.access, caller@) && !old(self)@.records.contains_key(commitment_id@)
                ==> r == Err::<(), CommitmentError>(CommitmentError::NotFound),
            state_authorizes(old(self)@.access, caller@) && old(self)@.records.contains_key(commitment_id@)
                ==> ({
                let c = old(self)@.records[commitment_id@];
                &&& c.status != CommitmentStatus::Active ==> r == Err::<(), CommitmentError>(
                    CommitmentError::InactiveCommitment,
                )
                &&& c.status == CommitmentStatus::Active && amount <= 0 ==> r == Err::<(), CommitmentError>(
                    CommitmentError::InvalidAmount,
                )
                &&& c.status == CommitmentStatus::Active && amount > 0 && amount > c.allocated_amount
                    ==> r == Err::<(), CommitmentError>(CommitmentError::InsufficientBalance)
                &&& r is Ok <==> c.status == CommitmentStatus::Active && amount > 0 && amount
                    <= c.allocated_amount
                &&& r is Ok ==> final(self)@ == (CoreState {
                    records: old(self)@.records.insert(
                        commitment_id@,
                        Commitment { allocated_amount: (c.allocated_amount - amount) as i128, ..c },
                    ),
                    ..old(self)@
                })
            }),
    {
        if !self.access.is_authorized(caller) {
            return Err(CommitmentError::Unauthorized);
        }
        let i = self.found_record(commitment_id)?;
        let c = self.commitments[i].duplicate();
        if c.status != CommitmentStatus::Active {
            return Err(CommitmentError::InactiveCommitment);
        }
        if amount <= 0 {
            return Err(CommitmentError::InvalidAmount);
        }
        if amount > c.allocated_amount {
            return Err(CommitmentError::InsufficientBalance);
        }
        let allocated_amount = c.allocated_amount - amount;
        let updated = Commitment { allocated_amount, ..c };
        self.put_record(i, updated);
        Ok(())
    }
}

} // verus!
