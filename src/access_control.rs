use vstd::prelude::*;

use crate::address::Address;

verus! {

/// Why an access-control operation was rejected.
#[derive(Copy, Clone, Debug, PartialEq, Eq, Structural)]
pub enum AccessControlError {
    NotInitialized,
    AlreadyInitialized,
    Unauthorized,
    AlreadyAuthorized,
    NotAuthorized,
    InvalidAddress,
}

/// The abstract state of an access-control record.
pub struct AccessState {
    pub admin: Option<Seq<char>>,
    pub owner: Option<Seq<char>>,
    pub whitelist: Set<Seq<char>>,
}

pub open spec fn opt_view(a: Option<Address>) -> Option<Seq<char>> {
    match a {
        Some(x) => Some(x@),
        None => None,
    }
}

/// The admin passes every whitelist-gated check without a whitelist entry.
pub open spec fn state_authorizes(s: AccessState, a: Seq<char>) -> bool {
    s.admin == Some(a) || s.whitelist.contains(a)
}

/// Taking an address off the whitelist revokes it, unless it is the admin, who stays
/// authorized whatever the whitelist holds.
pub proof fn lemma_removal_revokes(s: AccessState, target: Seq<char>)
    requires
        s.admin is Some,
        s.admin != Some(target),
    ensures
        !state_authorizes(AccessState { whitelist: s.whitelist.remove(target), ..s }, target),
        state_authorizes(AccessState { whitelist: s.whitelist.remove(target), ..s }, s.admin->Some_0),
{
}

/// A single admin, an optional owner, and a whitelist of delegated callers.
pub struct AccessControl {
    admin: Option<Address>,
    owner: Option<Address>,
    authorized: Vec<Address>,
}

impl View for AccessControl {
    type V = AccessState;

    closed spec fn view(&self) -> AccessState {
        AccessState {
            admin: opt_view(self.admin),
            owner: opt_view(self.owner),
            whitelist: Set::new(|k: Seq<char>| self.listed(k)),
        }
    }
}

impl AccessControl {
    pub closed spec fn listed(&self, k: Seq<char>) -> bool {
        exists|i: int| 0 <= i < self.authorized@.len() && #[trigger] self.authorized@[i]@ == k
    }

    proof fn lemma_same_whitelist(a: AccessControl, b: AccessControl)
        requires
            a.authorized@ == b.authorized@,
        ensures
            a@.whitelist == b@.whitelist,
    {
        assert forall|x: Seq<char>| a.listed(x) == b.listed(x) by {
            if a.listed(x) {
                let i = choose|i: int| 0 <= i < a.authorized@.len() && #[trigger] a.authorized@[i]@ == x;
                assert(b.authorized@[i]@ == x);
            }
            if b.listed(x) {
                let i = choose|i: int| 0 <= i < b.authorized@.len() && #[trigger] b.authorized@[i]@ == x;
                assert(a.authorized@[i]@ == x);
            }
        }
        assert(a@.whitelist =~= b@.whitelist);
    }

    /// A record with no admin, no owner and an empty whitelist.
    pub fn new() -> (r: AccessControl)
        ensures
            r@.admin is None,
            r@.owner is None,
            r@.whitelist == Set::<Seq<char>>::empty(),
    {
        let r = AccessControl { admin: None, owner: None, authorized: Vec::new() };
        assert(r@.whitelist =~= Set::<Seq<char>>::empty());
        r
    }

    /// Sets the admin; at most once.
    pub fn init_admin(&mut self, admin: Address) -> (r: Result<(), AccessControlError>)
        ensures
            old(self)@.admin is Some ==> r == Err::<(), AccessControlError>(
                AccessControlError::AlreadyInitialized,
            ) && final(self)@ == old(self)@,
            old(self)@.admin is None ==> r is Ok && final(self)@ == (AccessState {
                admin: Some(admin@),
                ..old(self)@
            }),
    {
        if self.admin.is_some() {
            return Err(AccessControlError::AlreadyInitialized);
        }
        let ghost prev = *self;
        self.admin = Some(admin);
        proof { Self::lemma_same_whitelist(prev, *self); }
        Ok(())
    }

    pub fn get_admin(&self) -> (r: Result<Address, AccessControlError>)
        ensures
            match self@.admin {
                Some(a) => r matches Ok(x) && x@ == a,
                None => r == Err::<Address, AccessControlError>(AccessControlError::NotInitialized),
            },
    {
        match &self.admin {
            Some(a) => Ok(a.duplicate()),
            None => Err(AccessControlError::NotInitialized),
        }
    }

    pub fn is_admin(&self, address: &Address) -> (r: bool)
        ensures
            r == (self@.admin == Some(address@)),
    {
        match &self.admin {
            Some(a) => a.equals(address),
            None => false,
        }
    }

    /// Rejects every caller but the admin. The caller's signature is checked by the host before.
    pub fn require_admin(&self, caller: &Address) -> (r: Result<(), AccessControlError>)
        ensures
            r is Ok <==> self@.admin == Some(caller@),
            r is Err ==> r == Err::<(), AccessControlError>(AccessControlError::Unauthorized),
    {
        if !self.is_admin(caller) {
            return Err(AccessControlError::Unauthorized);
        }
        Ok(())
    }

    pub fn init_owner(&mut self, owner: Address)
        ensures
            final(self)@ == (AccessState { owner: Some(owner@), ..old(self)@ }),
    {
        let ghost prev = *self;
        self.owner = Some(owner);
        proof { Self::lemma_same_whitelist(prev, *self); }
    }

    pub fn get_owner(&self) -> (r: Option<Address>)
        ensures
            opt_view(r) == self@.owner,
    {
        match &self.owner {
            Some(o) => Some(o.duplicate()),
            None => None,
        }
    }

    pub fn is_owner(&self, address: &Address) -> (r: bool)
        ensures
            r == (self@.owner == Some(address@)),
    {
        match &self.owner {
            Some(o) => o.equals(address),
            None => false,
        }
    }

    pub fn require_owner(&self, caller: &Address) -> (r: Result<(), AccessControlError>)
        ensures
            r is Ok <==> self@.owner == Some(caller@),
            r is Err ==> r == Err::<(), AccessControlError>(AccessControlError::Unauthorized),
    {
        if !self.is_owner(caller) {
            return Err(AccessControlError::Unauthorized);
        }
        Ok(())
    }

    fn in_whitelist(&self, address: &Address) -> (r: bool)
        ensures
            r == self.listed(address@),
    {
        let mut i: usize = 0;
        while i < self.authorized.len()
            invariant
                i <= self.authorized@.len(),
                forall|j: int| 0 <= j < i ==> #[trigger] self.authorized@[j]@ != address@,
            decreases self.authorized@.len() - i,
        {
            if self.authorized[i].equals(address) {
                return true;
            }
            i += 1;
        }
        false
    }

    /// True for the admin and for every whitelisted address.
    pub fn is_authorized(&self, address: &Address) -> (r: bool)
        ensures
            r == state_authorizes(self@, address@),
    {
        if self.is_admin(address) {
            return true;
        }
        self.in_whitelist(address)
    }

    pub fn require_authorized(&self, caller: &Address) -> (r: Result<(), AccessControlError>)
        ensures
            r is Ok <==> state_authorizes(self@, caller@),
            r is Err ==> r == Err::<(), AccessControlError>(AccessControlError::Unauthorized),
    {
        if !self.is_authorized(caller) {
            return Err(AccessControlError::Unauthorized);
        }
        Ok(())
    }

    /// Admin only: whitelists `contract_address`, which must not pass the check yet.
    pub fn add_authorized_contract(&mut self, caller: &Address, contract_address: Address) -> (r:
        Result<(), AccessControlError>)
        ensures
            old(self)@.admin != Some(caller@) ==> r == Err::<(), AccessControlError>(
                AccessControlError::Unauthorized,
            ),
            old(self)@.admin == Some(caller@) && state_authorizes(old(self)@, contract_address@)
                ==> r == Err::<(), AccessControlError>(AccessControlError::AlreadyAuthorized),
            r is Err ==> final(self)@ == old(self)@,
            r is Ok <==> old(self)@.admin == Some(caller@) && !state_authorizes(
                old(self)@,
                contract_address@,
            ),
            r is Ok ==> final(self)@ == (AccessState {
                whitelist: old(self)@.whitelist.insert(contract_address@),
                ..old(self)@
            }),
    {
        self.require_admin(caller)?;
        if self.is_authorized(&contract_address) {
            return Err(AccessControlError::AlreadyAuthorized);
        }
        let ghost prev = *self;
        let ghost k = contract_address@;
        self.authorized.push(contract_address);
        proof {
            assert forall|x: Seq<char>| self.listed(x) == (prev.listed(x) || x == k) by {
                if prev.listed(x) {
                    let i = choose|i: int|
                        0 <= i < prev.authorized@.len() && #[trigger] prev.authorized@[i]@ == x;
                    assert(self.authorized@[i]@ == x);
                }
                if x == k {
                    assert(self.authorized@[self.authorized@.len() - 1]@ == x);
                }
                if self.listed(x) {
                    let i = choose|i: int|
                        0 <= i < self.authorized@.len() && #[trigger] self.authorized@[i]@ == x;
                    if i < prev.authorized@.len() {
                        assert(prev.authorized@[i]@ == x);
                    }
                }
            }
            assert(self@.whitelist =~= prev@.whitelist.insert(k));
        }
        Ok(())
    }

    /// Admin only: takes `contract_address` off the whitelist; it must pass the check now.
    /// The admin stays authorized whatever the whitelist holds.
    pub fn remove_authorized_contract(&mut self, caller: &Address, contract_address: &Address) -> (r:
        Result<(), AccessControlError>)
        ensures
            old(self)@.admin != Some(caller@) ==> r == Err::<(), AccessControlError>(
                AccessControlError::Unauthorized,
            ),
            old(self)@.admin == Some(caller@) && !state_authorizes(old(self)@, contract_address@)
                ==> r == Err::<(), AccessControlError>(AccessControlError::NotAuthorized),
            r is Err ==> final(self)@ == old(self)@,
            r is Ok <==> old(self)@.admin == Some(caller@) && state_authorizes(
                old(self)@,
                contract_address@,
            ),
            r is Ok ==> final(self)@ == (AccessState {
                whitelist: old(self)@.whitelist.remove(contract_address@),
                ..old(self)@
            }),
    {
        self.require_admin(caller)?;
        if !self.is_authorized(contract_address) {
            return Err(AccessControlError::NotAuthorized);
        }
        let ghost prev = *self;
        let ghost k = contract_address@;
        let mut kept: Vec<Address> = Vec::new();
        let mut i: usize = 0;
        while i < self.authorized.len()
            invariant
                i <= self.authorized@.len(),
                self.authorized@ == prev.authorized@,
                k == contract_address@,
                forall|j: int| 0 <= j < kept@.len() ==> #[trigger] kept@[j]@ != k,
                forall|j: int|
                    0 <= j < kept@.len() ==> exists|m: int|
                        0 <= m < i && #[trigger] prev.authorized@[m]@ == #[trigger] kept@[j]@,
                forall|m: int|
                    0 <= m < i && #[trigger] prev.authorized@[m]@ != k ==> exists|j: int|
                        0 <= j < kept@.len() && #[trigger] kept@[j]@ == prev.authorized@[m]@,
            decreases self.authorized@.len() - i,
        {
            let ghost before = kept@;
            let same = self.authorized[i].equals(contract_address);
            if same {
                proof {
                    assert(prev.authorized@[i as int]@ == k);
                    assert forall|m: int| 0 <= m < i + 1 && #[trigger] prev.authorized@[m]@ != k
                        implies exists|j: int| 0 <= j < kept@.len() && #[trigger] kept@[j]@
                        == prev.authorized@[m]@ by {
                        assert(m < i);
                    }
                }
            } else {
                let a = self.authorized[i].duplicate();
                kept.push(a);
                proof {
                    let last = kept@.len() - 1;
                    assert(kept@[last]@ == prev.authorized@[i as int]@);
                    assert forall|j: int| 0 <= j < kept@.len() implies #[trigger] kept@[j]@ != k by {
                        if j < last {
                            assert(kept@[j] == before[j]);
                            assert(before[j]@ != k);
                        }
                    }
                    assert forall|j: int| 0 <= j < kept@.len() implies exists|m: int|
                        0 <= m < i + 1 && #[trigger] prev.authorized@[m]@ == #[trigger] kept@[j]@ by {
                        if j < last {
                            assert(kept@[j] == before[j]);
                        } else {
                            assert(prev.authorized@[i as int]@ == kept@[j]@);
                        }
                    }
                    assert forall|m: int| 0 <= m < i + 1 && #[trigger] prev.authorized@[m]@ != k
                        implies exists|j: int| 0 <= j < kept@.len() && #[trigger] kept@[j]@
                        == prev.authorized@[m]@ by {
                        if m < i {
                            let j = choose|j: int| 0 <= j < before.len() && #[trigger] before[j]@
                                == prev.authorized@[m]@;
                            assert(kept@[j] == before[j]);
                        } else {
                            assert(kept@[last]@ == prev.authorized@[m]@);
                        }
                    }
                }
            }
            i += 1;
        }
        self.authorized = kept;
        proof {
            assert forall|x: Seq<char>| self.listed(x) == (prev.listed(x) && x != k) by {
                if prev.listed(x) && x != k {
                    let m = choose|m: int|
                        0 <= m < prev.authorized@.len() && #[trigger] prev.authorized@[m]@ == x;
                    let j = choose|j: int|
                        0 <= j < self.authorized@.len() && #[trigger] self.authorized@[j]@
                            == prev.authorized@[m]@;
                    assert(self.authorized@[j]@ == x);
                }
                if self.listed(x) {
                    let j = choose|j: int|
                        0 <= j < self.authorized@.len() && #[trigger] self.authorized@[j]@ == x;
                    let m = choose|m: int|
                        0 <= m < i && #[trigger] prev.authorized@[m]@
                            == #[trigger] self.authorized@[j]@;
                    assert(prev.authorized@[m]@ == x);
                }
            }
            assert(self@.whitelist =~= prev@.whitelist.remove(k));
        }
        Ok(())
    }

    /// Admin only: hands the admin role to `new_admin`.
    pub fn update_admin(&mut self, caller: &Address, new_admin: Address) -> (r: Result<(), AccessControlError>)
        ensures
            r is Ok <==> old(self)@.admin == Some(caller@),
            r is Err ==> r == Err::<(), AccessControlError>(AccessControlError::Unauthorized)
                && final(self)@ == old(self)@,
            r is Ok ==> final(self)@ == (AccessState { admin: Some(new_admin@), ..old(self)@ }),
    {
        self.require_admin(caller)?;
        let ghost prev = *self;
        self.admin = Some(new_admin);
        proof { Self::lemma_same_whitelist(prev, *self); }
        Ok(())
    }

    /// Owner only: hands the owner role to `new_owner`.
    pub fn update_owner(&mut self, caller: &Address, new_owner: Address) -> (r: Result<(), AccessControlError>)
        ensures
            r is Ok <==> old(self)@.owner == Some(caller@),
            r is Err ==> r == Err::<(), AccessControlError>(AccessControlError::Unauthorized)
                && final(self)@ == old(self)@,
            r is Ok ==> final(self)@ == (AccessState { owner: Some(new_owner@), ..old(self)@ }),
    {
        self.require_owner(caller)?;
        let ghost prev = *self;
        self.owner = Some(new_owner);
        proof { Self::lemma_same_whitelist(prev, *self); }
        Ok(())
    }
}

} // verus!
