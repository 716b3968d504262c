use vstd::prelude::*;

use crate::address::Address;
use crate::risk::SECONDS_PER_DAY;

verus! {

/// Why an operation on position receipts was rejected.
#[derive(Copy, Clone, Debug, PartialEq, Eq, Structural)]
pub enum ContractError {
    NotInitialized,
    AlreadyInitialized,
    TokenNotFound,
    InvalidTokenId,
    NotOwner,
    NotAuthorized,
    InvalidDuration,
    InvalidMaxLoss,
    InvalidCommitmentType,
    InvalidAmount,
    TokenLocked,
    InvalidRecipient,
}

/// The penalty percent recorded on a receipt at minting.
pub const DEFAULT_EARLY_EXIT_PENALTY: u32 = 10;

/// The commitment categories: "safe", "balanced" and "aggressive".
pub open spec fn valid_commitment_type(t: Seq<char>) -> bool {
    t == "safe"@ || t == "balanced"@ || t == "aggressive"@
}

/// The instant `days` whole days after `start`.
pub open spec fn expiry_of(start: int, days: int) -> int {
    start + days * SECONDS_PER_DAY
}

pub fn is_valid_commitment_type(t: &String) -> (r: bool)
    ensures
        r == valid_commitment_type(t@),
{
    let safe = "safe".to_owned();
    let balanced = "balanced".to_owned();
    let aggressive = "aggressive".to_owned();
    *t == safe || *t == balanced || *t == aggressive
}

/// The expiry instant, or `None` where it does not fit in a `u64`.
pub fn checked_expiry(start: u64, days: u32) -> (r: Option<u64>)
    ensures
        expiry_of(start as int, days as int) <= u64::MAX ==> r == Some(
            expiry_of(start as int, days as int) as u64,
        ),
        expiry_of(start as int, days as int) > u64::MAX ==> r is None,
{
    let span: u64 = days as u64 * SECONDS_PER_DAY;
    start.checked_add(span)
}

/// What a receipt records of the commitment it stands for.
#[derive(Debug)]
pub struct CommitmentMetadata {
    pub commitment_id: String,
    pub duration_days: u32,
    pub max_loss_percent: u32,
    pub commitment_type: String,
    pub created_at: u64,
    pub expires_at: u64,
    pub initial_amount: i128,
    pub asset_address: Address,
}

impl CommitmentMetadata {
    pub fn duplicate(&self) -> (r: CommitmentMetadata)
        ensures
            r == *self,
    {
        CommitmentMetadata {
            commitment_id: self.commitment_id.clone(),
            duration_days: self.duration_days,
            max_loss_percent: self.max_loss_percent,
            commitment_type: self.commitment_type.clone(),
            created_at: self.created_at,
            expires_at: self.expires_at,
            initial_amount: self.initial_amount,
            asset_address: self.asset_address.duplicate(),
        }
    }
}

/// A position receipt: owned, and locked (`is_active`) while its commitment runs.
#[derive(Debug)]
pub struct CommitmentNFT {
    pub owner: Address,
    pub token_id: u32,
    pub metadata: CommitmentMetadata,
    pub is_active: bool,
    pub early_exit_penalty: u32,
}

impl CommitmentNFT {
    pub fn duplicate(&self) -> (r: CommitmentNFT)
        ensures
            r == *self,
    {
        CommitmentNFT {
            owner: self.owner.duplicate(),
            token_id: self.token_id,
            metadata: self.metadata.duplicate(),
            is_active: self.is_active,
            early_exit_penalty: self.early_exit_penalty,
        }
    }
}

/// The abstract state of the receipt ledger: receipt `t` is `tokens[t - 1]`. `order` lists the
/// receipt ids by their latest acquisition: minting appends, a transfer moves the id to the end.
pub struct NftState {
    pub admin: Option<Seq<char>>,
    pub tokens: Seq<CommitmentNFT>,
    pub order: Seq<u32>,
}

pub open spec fn has_token(s: NftState, token_id: int) -> bool {
    1 <= token_id <= s.tokens.len()
}

pub open spec fn token_of(s: NftState, token_id: int) -> CommitmentNFT {
    s.tokens[token_id - 1]
}

/// The ids in `order` of the receipts held by `owner`, in the order of `order`.
pub open spec fn owned_ids(order: Seq<u32>, tokens: Seq<CommitmentNFT>, owner: Seq<char>) -> Seq<u32>
    decreases order.len(),
{
    if order.len() == 0 {
        Seq::empty()
    } else {
        let rest = owned_ids(order.drop_last(), tokens, owner);
        if tokens[order.last() - 1].owner@ == owner {
            rest.push(order.last())
        } else {
            rest
        }
    }
}

/// The receipts an owner holds, in the order they acquired them.
pub open spec fn tokens_of_owner(s: NftState, owner: Seq<char>) -> Seq<u32> {
    owned_ids(s.order, s.tokens, owner)
}

/// `s` without the occurrences of `t`, order kept.
pub open spec fn without(s: Seq<u32>, t: u32) -> Seq<u32>
    decreases s.len(),
{
    if s.len() == 0 {
        Seq::empty()
    } else if s.last() == t {
        without(s.drop_last(), t)
    } else {
        without(s.drop_last(), t).push(s.last())
    }
}

pub open spec fn ids_valid(order: Seq<u32>, n: int) -> bool {
    forall|i: int| 0 <= i < order.len() ==> 1 <= #[trigger] order[i] <= n
}

/// Changing receipt `t` and dropping it from the order drops it from every owner's list.
proof fn lemma_owned_without(order: Seq<u32>, tokens: Seq<CommitmentNFT>, t: u32, nft: CommitmentNFT, owner: Seq<char>)
    requires
        ids_valid(order, tokens.len() as int),
        1 <= t <= tokens.len(),
    ensures
        owned_ids(without(order, t), tokens.update(t - 1, nft), owner) == without(
            owned_ids(order, tokens, owner),
            t,
        ),
    decreases order.len(),
{
    if order.len() > 0 {
        let o = order.drop_last();
        assert(ids_valid(o, tokens.len() as int)) by {
            assert forall|i: int| 0 <= i < o.len() implies 1 <= #[trigger] o[i] <= tokens.len() by {
                assert(o[i] == order[i]);
            }
        }
        lemma_owned_without(o, tokens, t, nft, owner);
        let x = order.last();
        assert(1 <= order[order.len() - 1] <= tokens.len());
        let rest = owned_ids(o, tokens, owner);
        if x != t {
            assert(without(order, t).drop_last() =~= without(o, t));
            if tokens[x - 1].owner@ == owner {
                assert(owned_ids(order, tokens, owner).drop_last() =~= rest);
            }
        } else {
            if tokens[x - 1].owner@ == owner {
                assert(owned_ids(order, tokens, owner).drop_last() =~= rest);
            }
        }
    }
}

/// An owner's list never holds a receipt of another owner.
proof fn lemma_owned_excludes(order: Seq<u32>, tokens: Seq<CommitmentNFT>, t: u32, owner: Seq<char>)
    requires
        tokens[t - 1].owner@ != owner,
    ensures
        without(owned_ids(order, tokens, owner), t) == owned_ids(order, tokens, owner),
    decreases order.len(),
{
    if order.len() > 0 {
        lemma_owned_excludes(order.drop_last(), tokens, t, owner);
        let rest = owned_ids(order.drop_last(), tokens, owner);
        if tokens[order.last() - 1].owner@ == owner {
            assert(owned_ids(order, tokens, owner).drop_last() =~= rest);
        }
    }
}

/// A newly minted receipt changes no earlier entry of an owner's list.
proof fn lemma_owned_extend(order: Seq<u32>, tokens: Seq<CommitmentNFT>, nft: CommitmentNFT, owner: Seq<char>)
    requires
        ids_valid(order, tokens.len() as int),
    ensures
        owned_ids(order, tokens.push(nft), owner) == owned_ids(order, tokens, owner),
    decreases order.len(),
{
    if order.len() > 0 {
        let o = order.drop_last();
        assert(ids_valid(o, tokens.len() as int)) by {
            assert forall|i: int| 0 <= i < o.len() implies 1 <= #[trigger] o[i] <= tokens.len() by {
                assert(o[i] == order[i]);
            }
        }
        assert(1 <= order[order.len() - 1] <= tokens.len());
        lemma_owned_extend(o, tokens, nft, owner);
    }
}

/// `tokens` with receipt `token_id` replaced by `nft`.
pub open spec fn replaced(s: NftState, token_id: int, nft: CommitmentNFT) -> NftState {
    NftState { tokens: s.tokens.update(token_id - 1, nft), ..s }
}

/// The ledger of position receipts, numbered from 1 in order of minting.
pub struct CommitmentNFTContract {
    admin: Option<Address>,
    tokens: Vec<CommitmentNFT>,
    order: Vec<u32>,
}

impl View for CommitmentNFTContract {
    type V = NftState;

    closed spec fn view(&self) -> NftState {
        NftState {
            admin: match self.admin {
                Some(a) => Some(a@),
                None => None,
            },
            tokens: self.tokens@,
            order: self.order@,
        }
    }
}

impl CommitmentNFTContract {
    /// Receipt ids are consecutive from 1 and fit in a `u32`.
    pub open spec fn wf(&self) -> bool {
        &&& self@.tokens.len() <= u32::MAX
        &&& forall|i: int| 0 <= i < self@.tokens.len() ==> #[trigger] self@.tokens[i].token_id == i + 1
        &&& ids_valid(self@.order, self@.tokens.len() as int)
    }

    pub fn new() -> (r: CommitmentNFTContract)
        ensures
            r.wf(),
            r@.admin is None,
            r@.tokens.len() == 0,
            r@.order.len() == 0,
    {
        CommitmentNFTContract { admin: None, tokens: Vec::new(), order: Vec::new() }
    }

    pub fn initialize(&mut self, admin: Address) -> (r: Result<(), ContractError>)
        requires
            old(self).wf(),
        ensures
            final(self).wf(),
            old(self)@.admin is Some ==> r == Err::<(), ContractError>(ContractError::AlreadyInitialized)
                && final(self)@ == old(self)@,
            old(self)@.admin is None ==> r is Ok && final(self)@ == (NftState {
                admin: Some(admin@),
                ..old(self)@
            }),
    {
        if self.admin.is_some() {
            return Err(ContractError::AlreadyInitialized);
        }
        self.admin = Some(admin);
        Ok(())
    }

    fn find(&self, token_id: u32) -> (r: Result<usize, ContractError>)
        requires
            self.wf(),
        ensures
            has_token(self@, token_id as int) ==> r == Ok::<usize, ContractError>((token_id - 1) as usize),
            !has_token(self@, token_id as int) ==> r == Err::<usize, ContractError>(ContractError::TokenNotFound),
    {
        if token_id == 0 || token_id as usize > self.tokens.len() {
            return Err(ContractError::TokenNotFound);
        }
        Ok((token_id - 1) as usize)
    }

    /// Issues a locked receipt to `owner` for a commitment with the given rules.
    pub fn mint(
        &mut self,
        owner: Address,
        commitment_id: String,
        duration_days: u32,
        max_loss_percent: u32,
        commitment_type: String,
        initial_amount: i128,
        asset_address: Address,
        now: u64,
    ) -> (r: Result<u32, ContractError>)
        requires
            old(self).wf(),
        ensures
            final(self).wf(),
            r is Err ==> final(self)@ == old(self)@,
            old(self)@.admin is None ==> r == Err::<u32, ContractError>(ContractError::NotInitialized),
            old(self)@.admin is Some && duration_days == 0 ==> r == Err::<u32, ContractError>(
                ContractError::InvalidDuration,
            ),
            old(self)@.admin is Some && duration_days > 0 && max_loss_percent > 100 ==> r == Err::<
                u32,
                ContractError,
            >(ContractError::InvalidMaxLoss),
            old(self)@.admin is Some && duration_days > 0 && max_loss_percent <= 100
                && !valid_commitment_type(commitment_type@) ==> r == Err::<u32, ContractError>(
                ContractError::InvalidCommitmentType,
            ),
            old(self)@.admin is Some && duration_days > 0 && max_loss_percent <= 100
                && valid_commitment_type(commitment_type@) && initial_amount <= 0 ==> r == Err::<
                u32,
                ContractError,
            >(ContractError::InvalidAmount),
            old(self)@.admin is Some && duration_days > 0 && max_loss_percent <= 100
                && valid_commitment_type(commitment_type@) && initial_amount > 0 && (expiry_of(
                now as int,
                duration_days as int,
            ) > u64::MAX || old(self)@.tokens.len() == u32::MAX) ==> r is Err,
            r is Ok <==> old(self)@.admin is Some && duration_days > 0 && max_loss_percent <= 100
                && valid_commitment_type(commitment_type@) && initial_amount > 0 && expiry_of(
                now as int,
                duration_days as int,
            ) <= u64::MAX && old(self)@.tokens.len() < u32::MAX,
            r matches Ok(id) ==> id == old(self)@.tokens.len() + 1 && final(self)@ == (NftState {
                tokens: old(self)@.tokens.push(
                    CommitmentNFT {
                        owner,
                        token_id: id,
                        metadata: CommitmentMetadata {
                            commitment_id,
                            duration_days,
                            max_loss_percent,
                            commitment_type,
                            created_at: now,
                            expires_at: expiry_of(now as int, duration_days as int) as u64,
                            initial_amount,
                            asset_address,
                        },
                        is_active: true,
                        early_exit_penalty: DEFAULT_EARLY_EXIT_PENALTY,
                    },
                ),
                order: old(self)@.order.push(id),
                ..old(self)@
            }),
            r matches Ok(id) ==> tokens_of_owner(final(self)@, owner@) == tokens_of_owner(old(self)@, owner@).push(id),
    {
        if self.admin.is_none() {
            return Err(ContractError::NotInitialized);
        }
        if duration_days == 0 {
            return Err(ContractError::InvalidDuration);
        }
        if max_loss_percent > 100 {
            return Err(ContractError::InvalidMaxLoss);
        }
        if !is_valid_commitment_type(&commitment_type) {
            return Err(ContractError::InvalidCommitmentType);
        }
        if initial_amount <= 0 {
            return Err(ContractError::InvalidAmount);
        }
        let expires_at = match checked_expiry(now, duration_days) {
            Some(t) => t,
            None => {
                return Err(ContractError::InvalidDuration);
            },
        };
        if self.tokens.len() >= u32::MAX as usize {
            return Err(ContractError::InvalidTokenId);
        }
        let token_id: u32 = (self.tokens.len() + 1) as u32;
        let metadata = CommitmentMetadata {
            commitment_id,
            duration_days,
            max_loss_percent,
            commitment_type,
            created_at: now,
            expires_at,
            initial_amount,
            asset_address,
        };
        let nft = CommitmentNFT {
            owner,
            token_id,
            metadata,
            is_active: true,
            early_exit_penalty: DEFAULT_EARLY_EXIT_PENALTY,
        };
        proof {
            lemma_owned_extend(self.order@, self.tokens@, nft, owner@);
        }
        let ghost old_order = self.order@;
        self.tokens.push(nft);
        self.order.push(token_id);
        proof {
            assert(self.order@.drop_last() =~= old_order);
            assert(self.tokens@[token_id - 1].owner@ == owner@);
        }
        Ok(token_id)
    }

    fn set_token(&mut self, idx: usize, nft: CommitmentNFT)
        requires
            old(self).wf(),
            idx < old(self)@.tokens.len(),
            nft.token_id == idx + 1,
        ensures
            final(self).wf(),
            final(self)@ == replaced(old(self)@, idx + 1, nft),
    {
        self.tokens.set(idx, nft);
    }

    /// Moves an unlocked receipt from its owner `from` to `to`.
    pub fn transfer(&mut self, from: &Address, to: Address, token_id: u32) -> (r: Result<(), ContractError>)
        requires
            old(self).wf(),
        ensures
            final(self).wf(),
            r is Err ==> final(self)@ == old(self)@,
            old(self)@.admin is None ==> r == Err::<(), ContractError>(ContractError::NotInitialized),
            old(self)@.admin is Some && from@ == to@ ==> r == Err::<(), ContractError>(
                ContractError::InvalidRecipient,
            ),
            old(self)@.admin is Some && from@ != to@ && !has_token(old(self)@, token_id as int) ==> r
                == Err::<(), ContractError>(ContractError::TokenNotFound),
            old(self)@.admin is Some && from@ != to@ && has_token(old(self)@, token_id as int)
                && token_of(old(self)@, token_id as int).owner@ != from@ ==> r == Err::<(), ContractError>(
                ContractError::NotOwner,
            ),
            old(self)@.admin is Some && from@ != to@ && has_token(old(self)@, token_id as int)
                && token_of(old(self)@, token_id as int).owner@ == from@ && token_of(
                old(self)@,
                token_id as int,
            ).is_active ==> r == Err::<(), ContractError>(ContractError::TokenLocked),
            r is Ok <==> old(self)@.admin is Some && from@ != to@ && has_token(old(self)@, token_id as int)
                && token_of(old(self)@, token_id as int).owner@ == from@ && !token_of(
                old(self)@,
                token_id as int,
            ).is_active,
            r is Ok ==> final(self)@ == (NftState {
                order: without(old(self)@.order, token_id).push(token_id),
                ..replaced(
                    old(self)@,
                    token_id as int,
                    CommitmentNFT { owner: to, ..token_of(old(self)@, token_id as int) },
                )
            }),
            r is Ok ==> tokens_of_owner(final(self)@, from@) == without(tokens_of_owner(old(self)@, from@), token_id),
            r is Ok ==> tokens_of_owner(final(self)@, to@) == tokens_of_owner(old(self)@, to@).push(token_id),
    {
        if self.admin.is_none() {
            return Err(ContractError::NotInitialized);
        }
        if from.equals(&to) {
            return Err(ContractError::InvalidRecipient);
        }
        let idx = self.find(token_id)?;
        if !self.tokens[idx].owner.equals(from) {
            return Err(ContractError::NotOwner);
        }
        if self.tokens[idx].is_active {
            return Err(ContractError::TokenLocked);
        }
        let cur = &self.tokens[idx];
        let nft = CommitmentNFT {
            owner: to,
            token_id: cur.token_id,
            metadata: cur.metadata.duplicate(),
            is_active: cur.is_active,
            early_exit_penalty: cur.early_exit_penalty,
        };
        let ghost before = self@;
        let ghost moved = nft;
        let mut order: Vec<u32> = Vec::new();
        let mut i: usize = 0;
        while i < self.order.len()
            invariant
                i <= self.order@.len(),
                order@ == without(self.order@.take(i as int), token_id),
                forall|j: int| 0 <= j < order@.len() ==> 1 <= #[trigger] order@[j] <= self.tokens@.len(),
                ids_valid(self.order@, self.tokens@.len() as int),
            decreases self.order@.len() - i,
        {
            proof {
                assert(self.order@.take(i + 1).drop_last() =~= self.order@.take(i as int));
            }
            let x = self.order[i];
            if x != token_id {
                order.push(x);
            }
            i += 1;
        }
        proof {
            assert(self.order@.take(i as int) =~= self.order@);
        }
        order.push(token_id);
        self.set_token(idx, nft);
        self.order = order;
        proof {
            let t = token_id;
            let toks2 = before.tokens.update(t - 1, moved);
            lemma_owned_without(before.order, before.tokens, t, moved, from@);
            lemma_owned_without(before.order, before.tokens, t, moved, to@);
            lemma_owned_excludes(before.order, before.tokens, t, to@);
            let wo = without(before.order, t);
            assert(self@.order.drop_last() =~= wo);
            assert(toks2[t - 1].owner@ == to@);
            assert(owned_ids(self@.order, toks2, from@) == owned_ids(wo, toks2, from@));
            assert(owned_ids(self@.order, toks2, to@) == owned_ids(wo, toks2, to@).push(t));
        }
        Ok(())
    }

    pub fn get_metadata(&self, token_id: u32) -> (r: Result<&CommitmentMetadata, ContractError>)
        requires
            self.wf(),
        ensures
            has_token(self@, token_id as int) ==> (r matches Ok(m) && *m == token_of(self@, token_id as int).metadata),
            !has_token(self@, token_id as int) ==> (r matches Err(e) && e == ContractError::TokenNotFound),
    {
        let idx = self.find(token_id)?;
        Ok(&self.tokens[idx].metadata)
    }

    pub fn get_nft_data(&self, token_id: u32) -> (r: Result<&CommitmentNFT, ContractError>)
        requires
            self.wf(),
        ensures
            has_token(self@, token_id as int) ==> (r matches Ok(n) && *n == token_of(self@, token_id as int)),
            !has_token(self@, token_id as int) ==> (r matches Err(e) && e == ContractError::TokenNotFound),
    {
        let idx = self.find(token_id)?;
        Ok(&self.tokens[idx])
    }

    pub fn owner_of(&self, token_id: u32) -> (r: Result<Address, ContractError>)
        requires
            self.wf(),
        ensures
            has_token(self@, token_id as int) ==> (r matches Ok(a) && a == token_of(self@, token_id as int).owner),
            !has_token(self@, token_id as int) ==> r == Err::<Address, ContractError>(ContractError::TokenNotFound),
    {
        let idx = self.find(token_id)?;
        Ok(self.tokens[idx].owner.duplicate())
    }

    /// Whether the receipt is still locked to a running commitment.
    pub fn is_active(&self, token_id: u32) -> (r: Result<bool, ContractError>)
        requires
            self.wf(),
        ensures
            has_token(self@, token_id as int) ==> r == Ok::<bool, ContractError>(token_of(self@, token_id as int).is_active),
            !has_token(self@, token_id as int) ==> r == Err::<bool, ContractError>(ContractError::TokenNotFound),
    {
        let idx = self.find(token_id)?;
        Ok(self.tokens[idx].is_active)
    }

    /// The receipts `owner` holds, in the order they acquired them.
    pub fn get_tokens_by_owner(&self, owner: &Address) -> (r: Vec<u32>)
        requires
            self.wf(),
        ensures
            r@ == tokens_of_owner(self@, owner@),
    {
        let mut ids: Vec<u32> = Vec::new();
        let mut i: usize = 0;
        while i < self.order.len()
            invariant
                self.wf(),
                i <= self@.order.len(),
                ids@ == owned_ids(self@.order.take(i as int), self@.tokens, owner@),
            decreases self@.order.len() - i,
        {
            proof {
                assert(self@.order.take(i + 1).drop_last() =~= self@.order.take(i as int));
            }
            let x = self.order[i];
            assert(1 <= self@.order[i as int] <= self@.tokens.len());
            if self.tokens[(x - 1) as usize].owner.equals(owner) {
                ids.push(x);
            }
            i += 1;
        }
        proof {
            assert(self@.order.take(i as int) =~= self@.order);
        }
        ids
    }

    /// Unlocks the receipt once its commitment is settled or exited; unlocking twice is harmless.
    pub fn settle(&mut self, token_id: u32) -> (r: Result<(), ContractError>)
        requires
            old(self).wf(),
        ensures
            final(self).wf(),
            r is Err ==> final(self)@ == old(self)@,
            old(self)@.admin is None ==> r == Err::<(), ContractError>(ContractError::NotInitialized),
            old(self)@.admin is Some && !has_token(old(self)@, token_id as int) ==> r == Err::<(), ContractError>(
                ContractError::TokenNotFound,
            ),
            r is Ok <==> old(self)@.admin is Some && has_token(old(self)@, token_id as int),
            r is Ok ==> final(self)@ == replaced(
                old(self)@,
                token_id as int,
                CommitmentNFT { is_active: false, ..token_of(old(self)@, token_id as int) },
            ),
    {
        if self.admin.is_none() {
            return Err(ContractError::NotInitialized);
        }
        let idx = self.find(token_id)?;
        self.set_lock(idx, false);
        Ok(())
    }

    /// Admin only: locks the receipt again.
    pub fn activate(&mut self, caller: &Address, token_id: u32) -> (r: Result<(), ContractError>)
        requires
            old(self).wf(),
        ensures
            final(self).wf(),
            r is Err ==> final(self)@ == old(self)@,
            old(self)@.admin is None ==> r == Err::<(), ContractError>(ContractError::NotInitialized),
            old(self)@.admin is Some && old(self)@.admin != Some(caller@) ==> r == Err::<(), ContractError>(
                ContractError::NotAuthorized,
            ),
            old(self)@.admin == Some(caller@) && !has_token(old(self)@, token_id as int) ==> r == Err::<
                (),
                ContractError,
            >(ContractError::TokenNotFound),
            r is Ok <==> old(self)@.admin == Some(caller@) && has_token(old(self)@, token_id as int),
            r is Ok ==> final(self)@ == replaced(
                old(self)@,
                token_id as int,
                CommitmentNFT { is_active: true, ..token_of(old(self)@, token_id as int) },
            ),
    {
        match &self.admin {
            None => {
                return Err(ContractError::NotInitialized);
            },
            Some(a) => {
                if !a.equals(caller) {
                    return Err(ContractError::NotAuthorized);
                }
            },
        }
        let idx = self.find(token_id)?;
        self.set_lock(idx, true);
        Ok(())
    }

    fn set_lock(&mut self, idx: usize, locked: bool)
        requires
            old(self).wf(),
            idx < old(self)@.tokens.len(),
        ensures
            final(self).wf(),
            final(self)@ == replaced(
                old(self)@,
                idx + 1,
                CommitmentNFT { is_active: locked, ..old(self)@.tokens[idx as int] },
            ),
    {
        let cur = &self.tokens[idx];
        let nft = CommitmentNFT {
            owner: cur.owner.duplicate(),
            token_id: cur.token_id,
            metadata: cur.metadata.duplicate(),
            is_active: locked,
            early_exit_penalty: cur.early_exit_penalty,
        };
        self.set_token(idx, nft);
    }

    /// Whether the receipt's commitment has reached its expiry at `now` (inclusive).
    pub fn is_expired(&self, token_id: u32, now: u64) -> (r: Result<bool, ContractError>)
        requires
            self.wf(),
        ensures
            has_token(self@, token_id as int) ==> r == Ok::<bool, ContractError>(
                now >= token_of(self@, token_id as int).metadata.expires_at,
            ),
            !has_token(self@, token_id as int) ==> r == Err::<bool, ContractError>(ContractError::TokenNotFound),
    {
        let idx = self.find(token_id)?;
        Ok(now >= self.tokens[idx].metadata.expires_at)
    }

    pub fn token_exists(&self, token_id: u32) -> (r: bool)
        requires
            self.wf(),
        ensures
            r == has_token(self@, token_id as int),
    {
        self.find(token_id).is_ok()
    }
}

} // verus!
