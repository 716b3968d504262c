use vstd::prelude::*;

use crate::access_control::{AccessControl, AccessControlError, AccessState, state_authorizes};
use crate::address::Address;

verus! {

/// Attestations per storage chunk; a full chunk is never written again.
pub const CHUNK_SIZE: usize = 100;

#[derive(Copy, Clone, Debug, PartialEq, Eq, Structural)]
pub enum AttestationType {
    HealthCheck,
    Violation,
    FeeGeneration,
    Drawdown,
}

/// One health observation; immutable once written.
#[derive(Debug)]
pub struct Attestation {
    pub commitment_id: String,
    pub timestamp: u64,
    pub attestation_type: AttestationType,
    pub data: String,
    pub is_compliant: bool,
    pub verified_by: Address,
}

impl Attestation {
    pub fn duplicate(&self) -> (r: Attestation)
        ensures
            r == *self,
    {
        Attestation {
            commitment_id: self.commitment_id.clone(),
            timestamp: self.timestamp,
            attestation_type: self.attestation_type,
            data: self.data.clone(),
            is_compliant: self.is_compliant,
            verified_by: self.verified_by.duplicate(),
        }
    }
}

/// The cached health snapshot of one commitment.
#[derive(Debug)]
pub struct HealthMetrics {
    pub commitment_id: String,
    pub current_value: i128,
    pub initial_value: i128,
    pub drawdown_percent: i128,
    pub fees_generated: i128,
    pub volatility_exposure: i128,
    pub last_attestation: u64,
    pub compliance_score: u32,
}

impl HealthMetrics {
    pub fn duplicate(&self) -> (r: HealthMetrics)
        ensures
            r == *self,
    {
        HealthMetrics { commitment_id: self.commitment_id.clone(), ..*self }
    }
}

/// Why a ledger operation was rejected; a rejected operation changes nothing.
#[derive(Copy, Clone, Debug, PartialEq, Eq, Structural)]
pub enum AttestationError {
    NotInitialized,
    AlreadyInitialized,
    Unauthorized,
    AlreadyAuthorized,
    NotAuthorized,
    InvalidAmount,
    StorageFull,
}

/// The metrics of a commitment nothing has been recorded for.
pub open spec fn default_metrics(commitment_id: String) -> HealthMetrics {
    HealthMetrics {
        commitment_id,
        current_value: 0,
        initial_value: 0,
        drawdown_percent: 0,
        fees_generated: 0,
        volatility_exposure: 0,
        last_attestation: 0,
        compliance_score: 0,
    }
}

/// The number of violation attestations in `s`.
pub open spec fn violation_count(s: Seq<Attestation>) -> nat
    decreases s.len(),
{
    if s.len() == 0 {
        0
    } else {
        violation_count(s.drop_last()) + if s.last().attestation_type == AttestationType::Violation {
            1nat
        } else {
            0nat
        }
    }
}

/// The compliance score: 100, less 20 per violation, less each point of positive drawdown,
/// plus 10 once fees were generated; clamped to 0..=100.
pub open spec fn score_of(violations: int, drawdown_percent: int, fees_generated: int) -> int {
    let raw = 100 - 20 * violations - (if drawdown_percent > 0 {
        drawdown_percent
    } else {
        0
    }) + (if fees_generated > 0 {
        10int
    } else {
        0
    });
    if raw < 0 {
        0
    } else if raw > 100 {
        100
    } else {
        raw
    }
}

/// The entries `[offset, min(offset + limit, len))`; none when `offset` is past the end.
pub open spec fn page_of(s: Seq<Attestation>, offset: int, limit: int) -> Seq<Attestation> {
    if offset >= s.len() {
        Seq::empty()
    } else {
        s.subrange(offset, if offset + limit < s.len() {
            offset + limit
        } else {
            s.len() as int
        })
    }
}

/// A page past the end is empty; any other page holds `min(limit, len - offset)` entries,
/// the history's own from `offset` on, in order.
pub proof fn lemma_page_shape(s: Seq<Attestation>, offset: int, limit: int)
    requires
        offset >= 0,
        limit >= 0,
    ensures
        offset >= s.len() ==> page_of(s, offset, limit).len() == 0,
        offset < s.len() ==> page_of(s, offset, limit).len() == if limit < s.len() - offset {
            limit
        } else {
            s.len() - offset
        },
        forall|i: int|
            0 <= i < page_of(s, offset, limit).len() ==> #[trigger] page_of(s, offset, limit)[i] == s[offset
                + i],
{
}

/// The score of a history and its metrics.
pub fn compliance_score_of(violations: u64, drawdown_percent: i128, fees_generated: i128) -> (r: u32)
    ensures
        r == score_of(violations as int, drawdown_percent as int, fees_generated as int),
        r <= 100,
{
    let v: i128 = if violations > 6 {
        6
    } else {
        violations as i128
    };
    let d: i128 = if drawdown_percent <= 0 {
        0
    } else if drawdown_percent > 111 {
        111
    } else {
        drawdown_percent
    };
    let bonus: i128 = if fees_generated > 0 {
        10
    } else {
        0
    };
    let raw: i128 = 100 - 20 * v - d + bonus;
    if raw < 0 {
        0
    } else if raw > 100 {
        100
    } else {
        raw as u32
    }
}

/// Everything recorded for one commitment: its attestations in chunks, and its metrics.
struct CommitmentLog {
    commitment_id: String,
    chunks: Vec<Vec<Attestation>>,
    metrics: HealthMetrics,
}

/// What the ledger holds for one commitment.
pub struct LogState {
    pub history: Seq<Attestation>,
    pub metrics: HealthMetrics,
}

proof fn lemma_chunk_position(k: int, j: int, o: int)
    requires
        k == CHUNK_SIZE * j + o,
        0 <= o < CHUNK_SIZE,
        j >= 0,
    ensures
        k / (CHUNK_SIZE as int) == j,
        k % (CHUNK_SIZE as int) == o,
{
    assert(k / 100 == j && k % 100 == o) by (nonlinear_arith)
        requires
            k == 100 * j + o,
            0 <= o < 100,
            j >= 0,
    ;
}

impl CommitmentLog {
    /// All chunks but the last are full; the last holds at least one entry.
    spec fn wf(&self) -> bool {
        let n = self.chunks@.len();
        &&& forall|j: int| 0 <= j < n - 1 ==> (#[trigger] self.chunks@[j])@.len() == CHUNK_SIZE
        &&& n > 0 ==> 1 <= self.chunks@[n - 1]@.len() <= CHUNK_SIZE
        &&& self.count() < usize::MAX
    }

    spec fn count(&self) -> int {
        let n = self.chunks@.len();
        if n == 0 {
            0
        } else {
            CHUNK_SIZE * (n - 1) + self.chunks@[n - 1]@.len()
        }
    }

    spec fn entries(&self) -> Seq<Attestation> {
        Seq::new(
            self.count() as nat,
            |k: int| self.chunks@[k / (CHUNK_SIZE as int)]@[k % (CHUNK_SIZE as int)],
        )
    }

    spec fn state(&self) -> LogState {
        LogState { history: self.entries(), metrics: self.metrics }
    }

    proof fn lemma_in_chunk(&self, k: int)
        requires
            self.wf(),
            0 <= k < self.count(),
        ensures
            0 <= k / (CHUNK_SIZE as int) < self.chunks@.len(),
            0 <= k % (CHUNK_SIZE as int) < self.chunks@[k / (CHUNK_SIZE as int)]@.len(),
    {
        let n = self.chunks@.len();
        let j = k / 100;
        let o = k % 100;
        assert(k == 100 * j + o && 0 <= o < 100 && j >= 0) by (nonlinear_arith)
            requires
                k >= 0,
                j == k / 100,
                o == k % 100,
        ;
        if j > n - 1 {
            assert(k >= 100 * n) by (nonlinear_arith)
                requires
                    k == 100 * j + o,
                    o >= 0,
                    j >= n,
            ;
        }
        if j == n - 1 {
            lemma_chunk_position(k, n - 1, k - 100 * (n - 1));
        }
    }

    fn len(&self) -> (r: usize)
        requires
            self.wf(),
        ensures
            r == self.count(),
    {
        let n = self.chunks.len();
        if n == 0 {
            0
        } else {
            CHUNK_SIZE * (n - 1) + self.chunks[n - 1].len()
        }
    }

    fn entry(&self, k: usize) -> (r: &Attestation)
        requires
            self.wf(),
            k < self.count(),
        ensures
            *r == self.entries()[k as int],
    {
        proof {
            self.lemma_in_chunk(k as int);
        }
        &self.chunks[k / CHUNK_SIZE][k % CHUNK_SIZE]
    }

    fn append(&mut self, a: Attestation)
        requires
            old(self).wf(),
            old(self).count() + 1 < usize::MAX,
        ensures
            final(self).wf(),
            final(self).entries() == old(self).entries().push(a),
            final(self).commitment_id == old(self).commitment_id,
            final(self).metrics == old(self).metrics,
    {
        let ghost before = self.entries();
        let n = self.chunks.len();
        if n == 0 || self.chunks[n - 1].len() >= CHUNK_SIZE {
            let mut page: Vec<Attestation> = Vec::new();
            page.push(a);
            self.chunks.push(page);
            proof {
                assert forall|k: int| 0 <= k < self.count() implies #[trigger] self.entries()[k]
                    == before.push(a)[k] by {
                    if k < n * 100 {
                        old(self).lemma_in_chunk(k);
                    } else {
                        lemma_chunk_position(k, n as int, 0);
                    }
                }
                assert(self.entries() =~= before.push(a));
            }
        } else {
            let mut last = self.chunks.pop().unwrap();
            last.push(a);
            self.chunks.push(last);
            proof {
                assert forall|k: int| 0 <= k < self.count() implies #[trigger] self.entries()[k]
                    == before.push(a)[k] by {
                    if k < old(self).count() {
                        old(self).lemma_in_chunk(k);
                    } else {
                        lemma_chunk_position(k, n - 1, old(self).chunks@[n - 1]@.len() as int);
                    }
                }
                assert(self.entries() =~= before.push(a));
            }
        }
    }
}

/// The abstract state of the attestation ledger.
pub struct EngineState {
    pub access: AccessState,
    pub commitment_core: Option<Seq<char>>,
    pub logs: Map<Seq<char>, LogState>,
}

/// The attestations recorded for `id`, in the order they were written.
pub open spec fn history_of(s: EngineState, id: Seq<char>) -> Seq<Attestation> {
    if s.logs.contains_key(id) {
        s.logs[id].history
    } else {
        Seq::empty()
    }
}

/// The stored metrics of `id`, or zeros where none are stored.
pub open spec fn metrics_of(s: EngineState, id: String) -> HealthMetrics {
    if s.logs.contains_key(id@) {
        s.logs[id@].metrics
    } else {
        default_metrics(id)
    }
}

/// One more attestation would not fit the ledger's index range.
pub open spec fn log_full(s: EngineState, id: Seq<char>) -> bool {
    history_of(s, id).len() + 2 >= usize::MAX
}

/// `s` with the log of `id` set to `history` and `metrics`.
pub open spec fn with_log(s: EngineState, id: Seq<char>, history: Seq<Attestation>, metrics: HealthMetrics) -> EngineState {
    EngineState { logs: s.logs.insert(id, LogState { history, metrics }), ..s }
}

spec fn logs_unique(ls: Seq<CommitmentLog>) -> bool {
    forall|i: int, j: int|
        0 <= i < ls.len() && 0 <= j < ls.len() && i != j ==> #[trigger] ls[i].commitment_id@
            != #[trigger] ls[j].commitment_id@
}

spec fn holds_log(ls: Seq<CommitmentLog>, k: Seq<char>) -> bool {
    exists|i: int| 0 <= i < ls.len() && #[trigger] ls[i].commitment_id@ == k
}

spec fn logs_of(ls: Seq<CommitmentLog>) -> Map<Seq<char>, LogState> {
    Map::new(
        |k: Seq<char>| holds_log(ls, k),
        |k: Seq<char>| ls[choose|i: int| 0 <= i < ls.len() && #[trigger] ls[i].commitment_id@ == k].state(),
    )
}

proof fn lemma_logs_index(ls: Seq<CommitmentLog>, i: int)
    requires
        logs_unique(ls),
        0 <= i < ls.len(),
    ensures
        logs_of(ls).contains_key(ls[i].commitment_id@),
        logs_of(ls)[ls[i].commitment_id@] == ls[i].state(),
{
    let k = ls[i].commitment_id@;
    assert(holds_log(ls, k));
    let j = choose|j: int| 0 <= j < ls.len() && #[trigger] ls[j].commitment_id@ == k;
    assert(j == i);
}

proof fn lemma_logs_update(ls: Seq<CommitmentLog>, i: int, c: CommitmentLog)
    requires
        logs_unique(ls),
        0 <= i < ls.len(),
        c.commitment_id@ == ls[i].commitment_id@,
    ensures
        logs_unique(ls.update(i, c)),
        logs_of(ls.update(i, c)) == logs_of(ls).insert(c.commitment_id@, c.state()),
{
    let ns = ls.update(i, c);
    assert forall|a: int, b: int|
        0 <= a < ns.len() && 0 <= b < ns.len() && a != b implies #[trigger] ns[a].commitment_id@
        != #[trigger] ns[b].commitment_id@ by {
        assert(ls[a].commitment_id@ != ls[b].commitment_id@);
    }
    let m1 = logs_of(ns);
    let m2 = logs_of(ls).insert(c.commitment_id@, c.state());
    assert forall|k: Seq<char>| m1.contains_key(k) == m2.contains_key(k) by {
        if holds_log(ns, k) {
            let j = choose|j: int| 0 <= j < ns.len() && #[trigger] ns[j].commitment_id@ == k;
            if j != i {
                assert(ls[j].commitment_id@ == k);
            }
        }
        if holds_log(ls, k) {
            let j = choose|j: int| 0 <= j < ls.len() && #[trigger] ls[j].commitment_id@ == k;
            if j != i {
                assert(ns[j].commitment_id@ == k);
            } else {
                assert(ns[i].commitment_id@ == k);
            }
        }
        if k == c.commitment_id@ {
            assert(ns[i].commitment_id@ == k);
        }
    }
    assert forall|k: Seq<char>| #[trigger] m1.contains_key(k) implies m1[k] == m2[k] by {
        let j = choose|j: int| 0 <= j < ns.len() && #[trigger] ns[j].commitment_id@ == k;
        lemma_logs_index(ns, j);
        if j != i {
            assert(ls[j].commitment_id@ == k);
            lemma_logs_index(ls, j);
        }
    }
    assert(m1 =~= m2);
}

proof fn lemma_logs_push(ls: Seq<CommitmentLog>, c: CommitmentLog)
    requires
        logs_unique(ls),
        !logs_of(ls).contains_key(c.commitment_id@),
    ensures
        logs_unique(ls.push(c)),
        logs_of(ls.push(c)) == logs_of(ls).insert(c.commitment_id@, c.state()),
{
    let ns = ls.push(c);
    assert forall|a: int, b: int|
        0 <= a < ns.len() && 0 <= b < ns.len() && a != b implies #[trigger] ns[a].commitment_id@
        != #[trigger] ns[b].commitment_id@ by {
        if a < ls.len() && b < ls.len() {
            assert(ls[a].commitment_id@ != ls[b].commitment_id@);
        } else if a < ls.len() {
            if ls[a].commitment_id@ == c.commitment_id@ {
                assert(holds_log(ls, c.commitment_id@));
            }
        } else if b < ls.len() {
            if ls[b].commitment_id@ == c.commitment_id@ {
                assert(holds_log(ls, c.commitment_id@));
            }
        }
    }
    let m1 = logs_of(ns);
    let m2 = logs_of(ls).insert(c.commitment_id@, c.state());
    assert forall|k: Seq<char>| m1.contains_key(k) == m2.contains_key(k) by {
        if holds_log(ns, k) {
            let j = choose|j: int| 0 <= j < ns.len() && #[trigger] ns[j].commitment_id@ == k;
            if j < ls.len() {
                assert(ls[j].commitment_id@ == k);
            }
        }
        if holds_log(ls, k) {
            let j = choose|j: int| 0 <= j < ls.len() && #[trigger] ls[j].commitment_id@ == k;
            assert(ns[j].commitment_id@ == k);
        }
        if k == c.commitment_id@ {
            assert(ns[ls.len() as int].commitment_id@ == k);
        }
    }
    assert forall|k: Seq<char>| #[trigger] m1.contains_key(k) implies m1[k] == m2[k] by {
        let j = choose|j: int| 0 <= j < ns.len() && #[trigger] ns[j].commitment_id@ == k;
        lemma_logs_index(ns, j);
        if j < ls.len() {
            assert(ls[j].commitment_id@ == k);
            lemma_logs_index(ls, j);
        }
    }
    assert(m1 =~= m2);
}

/// The append-only attestation ledger with per-commitment health metrics.
pub struct AttestationEngineContract {
    access: AccessControl,
    commitment_core: Option<Address>,
    logs: Vec<CommitmentLog>,
}

impl View for AttestationEngineContract {
    type V = EngineState;

    closed spec fn view(&self) -> EngineState {
        EngineState {
            access: self.access@,
            commitment_core: match self.commitment_core {
                Some(a) => Some(a@),
                None => None,
            },
            logs: logs_of(self.logs@),
        }
    }
}

impl AttestationEngineContract {
    pub closed spec fn wf(&self) -> bool {
        &&& logs_unique(self.logs@)
        &&& forall|i: int| 0 <= i < self.logs@.len() ==> (#[trigger] self.logs@[i]).wf()
    }

    pub fn new() -> (r: AttestationEngineContract)
        ensures
            r.wf(),
            r@.access.admin is None,
            r@.access.whitelist == Set::<Seq<char>>::empty(),
            r@.commitment_core is None,
            r@.logs == Map::<Seq<char>, LogState>::empty(),
    {
        let r = AttestationEngineContract {
            access: AccessControl::new(),
            commitment_core: None,
            logs: Vec::new(),
        };
        assert(r@.logs =~= Map::<Seq<char>, LogState>::empty());
        r
    }

    /// Sets the admin and the registry this ledger serves; at most once.
    pub fn initialize(&mut self, admin: Address, commitment_core: Address) -> (r: Result<(), AttestationError>)
        requires
            old(self).wf(),
        ensures
            final(self).wf(),
            old(self)@.access.admin is Some ==> r == Err::<(), AttestationError>(
                AttestationError::AlreadyInitialized,
            ) && final(self)@ == old(self)@,
            old(self)@.access.admin is None ==> r is Ok && final(self)@ == (EngineState {
                access: AccessState { admin: Some(admin@), ..old(self)@.access },
                commitment_core: Some(commitment_core@),
                ..old(self)@
            }),
    {
        if self.access.get_admin().is_ok() {
            return Err(AttestationError::AlreadyInitialized);
        }
        let _ = self.access.init_admin(admin);
        self.commitment_core = Some(commitment_core);
        Ok(())
    }

    pub fn get_admin(&self) -> (r: Result<Address, AttestationError>)
        ensures
            match self@.access.admin {
                Some(a) => r matches Ok(x) && x@ == a,
                None => r == Err::<Address, AttestationError>(AttestationError::NotInitialized),
            },
    {
        match self.access.get_admin() {
            Ok(a) => Ok(a),
            Err(_) => Err(AttestationError::NotInitialized),
        }
    }

    /// Admin only: whitelists `verifier`.
    pub fn add_authorized_verifier(&mut self, caller: &Address, verifier: Address) -> (r: Result<(), AttestationError>)
        requires
            old(self).wf(),
        ensures
            final(self).wf(),
            old(self)@.access.admin != Some(caller@) ==> r == Err::<(), AttestationError>(
                AttestationError::Unauthorized,
            ),
            old(self)@.access.admin == Some(caller@) && state_authorizes(old(self)@.access, verifier@)
                ==> r == Err::<(), AttestationError>(AttestationError::AlreadyAuthorized),
            r is Err ==> final(self)@ == old(self)@,
            r is Ok <==> old(self)@.access.admin == Some(caller@) && !state_authorizes(
                old(self)@.access,
                verifier@,
            ),
            r is Ok ==> final(self)@ == (EngineState {
                access: AccessState {
                    whitelist: old(self)@.access.whitelist.insert(verifier@),
                    ..old(self)@.access
                },
                ..old(self)@
            }),
    {
        match self.access.add_authorized_contract(caller, verifier) {
            Ok(()) => Ok(()),
            Err(AccessControlError::AlreadyAuthorized) => Err(AttestationError::AlreadyAuthorized),
            Err(_) => Err(AttestationError::Unauthorized),
        }
    }

    /// Admin only: takes `verifier` off the whitelist.
    pub fn remove_authorized_verifier(&mut self, caller: &Address, verifier: &Address) -> (r: Result<(), AttestationError>)
        requires
            old(self).wf(),
        ensures
            final(self).wf(),
            old(self)@.access.admin != Some(caller@) ==> r == Err::<(), AttestationError>(
                AttestationError::Unauthorized,
            ),
            old(self)@.access.admin == Some(caller@) && !state_authorizes(old(self)@.access, verifier@)
                ==> r == Err::<(), AttestationError>(AttestationError::NotAuthorized),
            r is Err ==> final(self)@ == old(self)@,
            r is Ok <==> old(self)@.access.admin == Some(caller@) && state_authorizes(
                old(self)@.access,
                verifier@,
            ),
            r is Ok ==> final(self)@ == (EngineState {
                access: AccessState {
                    whitelist: old(self)@.access.whitelist.remove(verifier@),
                    ..old(self)@.access
                },
                ..old(self)@
            }),
    {
        match self.access.remove_authorized_contract(caller, verifier) {
            Ok(()) => Ok(()),
            Err(AccessControlError::NotAuthorized) => Err(AttestationError::NotAuthorized),
            Err(_) => Err(AttestationError::Unauthorized),
        }
    }

    /// The admin and whitelisted verifiers may write to the ledger.
    pub fn is_authorized_verifier(&self, verifier: &Address) -> (r: bool)
        ensures
            r == state_authorizes(self@.access, verifier@),
    {
        self.access.is_authorized(verifier)
    }

    fn find_log(&self, commitment_id: &String) -> (r: Option<usize>)
        requires
            self.wf(),
        ensures
            r is None ==> !self@.logs.contains_key(commitment_id@),
            r matches Some(i) ==> i < self.logs@.len() && self.logs@[i as int].commitment_id@ == commitment_id@
                && self@.logs.contains_key(commitment_id@) && self@.logs[commitment_id@]
                == self.logs@[i as int].state(),
    {
        let mut i: usize = 0;
        while i < self.logs.len()
            invariant
                self.wf(),
                i <= self.logs@.len(),
                forall|j: int| 0 <= j < i ==> #[trigger] self.logs@[j].commitment_id@ != commitment_id@,
            decreases self.logs@.len() - i,
        {
            if self.logs[i].commitment_id == *commitment_id {
                proof {
                    lemma_logs_index(self.logs@, i as int);
                }
                return Some(i);
            }
            i += 1;
        }
        None
    }

    fn current_metrics(&self, commitment_id: &String) -> (r: HealthMetrics)
        requires
            self.wf(),
        ensures
            r == metrics_of(self@, *commitment_id),
    {
        match self.find_log(commitment_id) {
            Some(i) => self.logs[i].metrics.duplicate(),
            None => HealthMetrics {
                commitment_id: commitment_id.clone(),
                current_value: 0,
                initial_value: 0,
                drawdown_percent: 0,
                fees_generated: 0,
                volatility_exposure: 0,
                last_attestation: 0,
                compliance_score: 0,
            },
        }
    }

    fn history_len(&self, commitment_id: &String) -> (r: usize)
        requires
            self.wf(),
        ensures
            r == history_of(self@, commitment_id@).len(),
    {
        match self.find_log(commitment_id) {
            Some(i) => self.logs[i].len(),
            None => 0,
        }
    }

    /// Writes the metrics of `commitment_id`, appending `entry` to its history where given.
    fn write_log(&mut self, commitment_id: &String, entry: Option<Attestation>, metrics: HealthMetrics)
        requires
            old(self).wf(),
            entry is Some ==> !log_full(old(self)@, commitment_id@),
        ensures
            final(self).wf(),
            final(self)@ == with_log(
                old(self)@,
                commitment_id@,
                match entry {
                    Some(a) => history_of(old(self)@, commitment_id@).push(a),
                    None => history_of(old(self)@, commitment_id@),
                },
                metrics,
            ),
    {
        match self.find_log(commitment_id) {
            Some(i) => {
                let ghost orig = self.logs@;
                let mut log = CommitmentLog {
                    commitment_id: self.logs[i].commitment_id.clone(),
                    chunks: Vec::new(),
                    metrics,
                };
                std::mem::swap(&mut log.chunks, &mut self.logs[i].chunks);
                proof {
                    assert(log.entries() =~= history_of(old(self)@, commitment_id@));
                }
                match entry {
                    Some(a) => log.append(a),
                    None => {},
                }
                proof {
                    lemma_logs_update(orig, i as int, log);
                }
                self.logs.set(i, log);
                proof {
                    assert(self.logs@ =~= orig.update(i as int, log));
                }
            },
            None => {
                let mut log = CommitmentLog { commitment_id: commitment_id.clone(), chunks: Vec::new(), metrics };
                proof {
                    assert(log.entries() =~= Seq::<Attestation>::empty());
                }
                match entry {
                    Some(a) => log.append(a),
                    None => {},
                }
                proof {
                    lemma_logs_push(self.logs@, log);
                }
                self.logs.push(log);
            },
        }
    }
}

/// `a` is an attestation of kind `t` that `verifier` wrote for `id` at `now`.
pub open spec fn written_by(
    a: Attestation,
    id: Seq<char>,
    t: AttestationType,
    verifier: Seq<char>,
    now: u64,
) -> bool {
    &&& a.commitment_id@ == id
    &&& a.attestation_type == t
    &&& a.verified_by@ == verifier
    &&& a.timestamp == now
    &&& a.is_compliant
}

impl AttestationEngineContract {
    /// An authorized verifier records an observation; it is compliant unless it reports a violation.
    pub fn attest(
        &mut self,
        commitment_id: &String,
        attestation_type: AttestationType,
        data: String,
        verified_by: &Address,
        now: u64,
    ) -> (r: Result<(), AttestationError>)
        requires
            old(self).wf(),
        ensures
            final(self).wf(),
            r is Err ==> final(self)@ == old(self)@,
            !state_authorizes(old(self)@.access, verified_by@) ==> r == Err::<(), AttestationError>(
                AttestationError::Unauthorized,
            ),
            state_authorizes(old(self)@.access, verified_by@) && log_full(old(self)@, commitment_id@) ==> r
                == Err::<(), AttestationError>(AttestationError::StorageFull),
            r is Ok <==> state_authorizes(old(self)@.access, verified_by@) && !log_full(old(self)@, commitment_id@),
            r is Ok ==> final(self)@ == with_log(
                old(self)@,
                commitment_id@,
                history_of(old(self)@, commitment_id@).push(
                    Attestation {
                        commitment_id: *commitment_id,
                        timestamp: now,
                        attestation_type,
                        data,
                        is_compliant: attestation_type != AttestationType::Violation,
                        verified_by: *verified_by,
                    },
                ),
                HealthMetrics { last_attestation: now, ..metrics_of(old(self)@, *commitment_id) },
            ),
    {
        if !self.access.is_authorized(verified_by) {
            return Err(AttestationError::Unauthorized);
        }
        if self.history_len(commitment_id) >= usize::MAX - 2 {
            return Err(AttestationError::StorageFull);
        }
        let current = self.current_metrics(commitment_id);
        let metrics = HealthMetrics { last_attestation: now, ..current };
        let a = Attestation {
            commitment_id: commitment_id.clone(),
            timestamp: now,
            attestation_type,
            data,
            is_compliant: attestation_type != AttestationType::Violation,
            verified_by: verified_by.duplicate(),
        };
        self.write_log(commitment_id, Some(a), metrics);
        Ok(())
    }

    /// The number of attestations recorded for `commitment_id`.
    pub fn get_attestations_len(&self, commitment_id: &String) -> (r: usize)
        requires
            self.wf(),
        ensures
            r == history_of(self@, commitment_id@).len(),
    {
        self.history_len(commitment_id)
    }

    /// The full history of `commitment_id`, in insertion order; empty when none was recorded.
    pub fn get_attestations(&self, commitment_id: &String) -> (r: Vec<Attestation>)
        requires
            self.wf(),
        ensures
            r@ == history_of(self@, commitment_id@),
    {
        let i = match self.find_log(commitment_id) {
            Some(i) => i,
            None => {
                return Vec::new();
            },
        };
        let log = &self.logs[i];
        let n = log.len();
        let mut out: Vec<Attestation> = Vec::new();
        let mut k: usize = 0;
        while k < n
            invariant
                log.wf(),
                n == log.count(),
                k <= n,
                out@ == log.entries().take(k as int),
            decreases n - k,
        {
            out.push(log.entry(k).duplicate());
            proof {
                assert(out@ =~= log.entries().take(k + 1));
            }
            k += 1;
        }
        proof {
            assert(out@ =~= log.entries());
        }
        out
    }

    /// Entries `[offset, min(offset + limit, len))` of the history; empty past the end.
    pub fn get_attestations_paginated(&self, commitment_id: &String, offset: u32, limit: u32) -> (r: Vec<Attestation>)
        requires
            self.wf(),
        ensures
            r@ == page_of(history_of(self@, commitment_id@), offset as int, limit as int),
    {
        let i = match self.find_log(commitment_id) {
            Some(i) => i,
            None => {
                return Vec::new();
            },
        };
        let log = &self.logs[i];
        let n = log.len();
        let start = offset as usize;
        if start >= n {
            return Vec::new();
        }
        let end: usize = if (offset as u64 + limit as u64) < n as u64 {
            start + limit as usize
        } else {
            n
        };
        let mut out: Vec<Attestation> = Vec::new();
        let mut k: usize = start;
        while k < end
            invariant
                log.wf(),
                n == log.count(),
                start <= k <= end <= n,
                out@ == log.entries().subrange(start as int, k as int),
            decreases end - k,
        {
            out.push(log.entry(k).duplicate());
            proof {
                assert(out@ =~= log.entries().subrange(start as int, k + 1));
            }
            k += 1;
        }
        out
    }

    fn count_violations(&self, commitment_id: &String) -> (r: u64)
        requires
            self.wf(),
        ensures
            r == violation_count(history_of(self@, commitment_id@)),
    {
        let i = match self.find_log(commitment_id) {
            Some(i) => i,
            None => {
                return 0;
            },
        };
        let log = &self.logs[i];
        let n = log.len();
        let mut count: u64 = 0;
        let mut k: usize = 0;
        while k < n
            invariant
                log.wf(),
                n == log.count(),
                k <= n,
                count == violation_count(log.entries().take(k as int)),
                count <= k,
            decreases n - k,
        {
            proof {
                assert(log.entries().take(k + 1).drop_last() =~= log.entries().take(k as int));
            }
            if log.entry(k).attestation_type == AttestationType::Violation {
                count += 1;
            }
            k += 1;
        }
        proof {
            assert(log.entries().take(k as int) =~= log.entries());
        }
        count
    }

    /// The score of `commitment_id` from its violation count, drawdown and fees.
    pub fn calculate_compliance_score(&self, commitment_id: &String) -> (r: u32)
        requires
            self.wf(),
        ensures
            r == score_of(
                violation_count(history_of(self@, commitment_id@)) as int,
                metrics_of(self@, *commitment_id).drawdown_percent as int,
                metrics_of(self@, *commitment_id).fees_generated as int,
            ),
            r <= 100,
    {
        let violations = self.count_violations(commitment_id);
        let m = self.current_metrics(commitment_id);
        compliance_score_of(violations, m.drawdown_percent, m.fees_generated)
    }

    /// The stored metrics of `commitment_id` (zeros where none), with a freshly computed score.
    pub fn get_health_metrics(&self, commitment_id: &String) -> (r: HealthMetrics)
        requires
            self.wf(),
        ensures
            r == (HealthMetrics {
                compliance_score: score_of(
                    violation_count(history_of(self@, commitment_id@)) as int,
                    metrics_of(self@, *commitment_id).drawdown_percent as int,
                    metrics_of(self@, *commitment_id).fees_generated as int,
                ) as u32,
                ..metrics_of(self@, *commitment_id)
            }),
    {
        let score = self.calculate_compliance_score(commitment_id);
        let m = self.current_metrics(commitment_id);
        HealthMetrics { compliance_score: score, ..m }
    }

    /// Whether every recorded observation of `commitment_id` was compliant.
    pub fn verify_compliance(&self, commitment_id: &String) -> (r: bool)
        requires
            self.wf(),
        ensures
            r == forall|k: int|
                0 <= k < history_of(self@, commitment_id@).len() ==> (#[trigger] history_of(
                    self@,
                    commitment_id@,
                )[k]).is_compliant,
    {
        let i = match self.find_log(commitment_id) {
            Some(i) => i,
            None => {
                return true;
            },
        };
        let log = &self.logs[i];
        let n = log.len();
        let mut k: usize = 0;
        while k < n
            invariant
                log.wf(),
                n == log.count(),
                k <= n,
                forall|j: int| 0 <= j < k ==> (#[trigger] log.entries()[j]).is_compliant,
                history_of(self@, commitment_id@) == log.entries(),
            decreases n - k,
        {
            if !log.entry(k).is_compliant {
                proof {
                    assert(!history_of(self@, commitment_id@)[k as int].is_compliant);
                }
                return false;
            }
            k += 1;
        }
        true
    }

    /// An authorized caller replaces the metrics of `commitment_id`.
    pub fn store_health_metrics(&mut self, caller: &Address, commitment_id: &String, metrics: HealthMetrics) -> (r:
        Result<(), AttestationError>)
        requires
            old(self).wf(),
        ensures
            final(self).wf(),
            r is Err ==> final(self)@ == old(self)@,
            r is Ok <==> state_authorizes(old(self)@.access, caller@),
            r is Err ==> r == Err::<(), AttestationError>(AttestationError::Unauthorized),
            r is Ok ==> final(self)@ == with_log(
                old(self)@,
                commitment_id@,
                history_of(old(self)@, commitment_id@),
                metrics,
            ),
    {
        if !self.access.is_authorized(caller) {
            return Err(AttestationError::Unauthorized);
        }
        self.write_log(commitment_id, None, metrics);
        Ok(())
    }

    /// An authorized caller overwrites every field of the metrics but the id and the initial value.
    pub fn update_health_metrics(&mut self, caller: &Address, commitment_id: &String, updates: HealthMetrics) -> (r:
        Result<(), AttestationError>)
        requires
            old(self).wf(),
        ensures
            final(self).wf(),
            r is Err ==> final(self)@ == old(self)@,
            r is Ok <==> state_authorizes(old(self)@.access, caller@),
            r is Err ==> r == Err::<(), AttestationError>(AttestationError::Unauthorized),
            r is Ok ==> final(self)@ == with_log(
                old(self)@,
                commitment_id@,
                history_of(old(self)@, commitment_id@),
                HealthMetrics {
                    current_value: updates.current_value,
                    drawdown_percent: updates.drawdown_percent,
                    fees_generated: updates.fees_generated,
                    volatility_exposure: updates.volatility_exposure,
                    last_attestation: updates.last_attestation,
                    compliance_score: updates.compliance_score,
                    ..metrics_of(old(self)@, *commitment_id)
                },
            ),
    {
        if !self.access.is_authorized(caller) {
            return Err(AttestationError::Unauthorized);
        }
        let current = self.current_metrics(commitment_id);
        let merged = HealthMetrics {
            current_value: updates.current_value,
            drawdown_percent: updates.drawdown_percent,
            fees_generated: updates.fees_generated,
            volatility_exposure: updates.volatility_exposure,
            last_attestation: updates.last_attestation,
            compliance_score: updates.compliance_score,
            ..current
        };
        self.write_log(commitment_id, None, merged);
        Ok(())
    }

    /// An authorized caller adds `fee_amount` to the fees generated and records a fee attestation.
    pub fn record_fees(&mut self, caller: &Address, commitment_id: &String, fee_amount: i128, now: u64) -> (r:
        Result<(), AttestationError>)
        requires
            old(self).wf(),
        ensures
            final(self).wf(),
            r is Err ==> final(self)@ == old(self)@,
            !state_authorizes(old(self)@.access, caller@) ==> r == Err::<(), AttestationError>(
                AttestationError::Unauthorized,
            ),
            ({
                let total = metrics_of(old(self)@, *commitment_id).fees_generated + fee_amount;
                &&& state_authorizes(old(self)@.access, caller@) && !(i128::MIN <= total <= i128::MAX) ==> r
                    == Err::<(), AttestationError>(AttestationError::InvalidAmount)
                &&& state_authorizes(old(self)@.access, caller@) && i128::MIN <= total <= i128::MAX
                    && log_full(old(self)@, commitment_id@) ==> r == Err::<(), AttestationError>(
                    AttestationError::StorageFull,
                )
                &&& r is Ok <==> state_authorizes(old(self)@.access, caller@) && i128::MIN <= total
                    <= i128::MAX && !log_full(old(self)@, commitment_id@)
                &&& r is Ok ==> final(self)@.logs.contains_key(commitment_id@) && final(self)@ == with_log(
                    old(self)@,
                    commitment_id@,
                    history_of(old(self)@, commitment_id@).push(final(self)@.logs[commitment_id@].history.last()),
                    HealthMetrics {
                        fees_generated: total as i128,
                        last_attestation: now,
                        ..metrics_of(old(self)@, *commitment_id)
                    },
                ) && written_by(
                    final(self)@.logs[commitment_id@].history.last(),
                    commitment_id@,
                    AttestationType::FeeGeneration,
                    caller@,
                    now,
                )
            }),
    {
        if !self.access.is_authorized(caller) {
            return Err(AttestationError::Unauthorized);
        }
        let current = self.current_metrics(commitment_id);
        let total = match current.fees_generated.checked_add(fee_amount) {
            Some(t) => t,
            None => {
                return Err(AttestationError::InvalidAmount);
            },
        };
        if self.history_len(commitment_id) >= usize::MAX - 2 {
            return Err(AttestationError::StorageFull);
        }
        let metrics = HealthMetrics { fees_generated: total, last_attestation: now, ..current };
        let a = Attestation {
            commitment_id: commitment_id.clone(),
            timestamp: now,
            attestation_type: AttestationType::FeeGeneration,
            data: String::new(),
            is_compliant: true,
            verified_by: caller.duplicate(),
        };
        self.write_log(commitment_id, Some(a), metrics);
        Ok(())
    }

    /// An authorized caller sets the drawdown percent and records a drawdown attestation.
    pub fn record_drawdown(&mut self, caller: &Address, commitment_id: &String, drawdown_percent: i128, now: u64) -> (r:
        Result<(), AttestationError>)
        requires
            old(self).wf(),
        ensures
            final(self).wf(),
            r is Err ==> final(self)@ == old(self)@,
            !state_authorizes(old(self)@.access, caller@) ==> r == Err::<(), AttestationError>(
                AttestationError::Unauthorized,
            ),
            state_authorizes(old(self)@.access, caller@) && log_full(old(self)@, commitment_id@) ==> r
                == Err::<(), AttestationError>(AttestationError::StorageFull),
            r is Ok <==> state_authorizes(old(self)@.access, caller@) && !log_full(old(self)@, commitment_id@),
            r is Ok ==> final(self)@.logs.contains_key(commitment_id@) && final(self)@ == with_log(
                old(self)@,
                commitment_id@,
                history_of(old(self)@, commitment_id@).push(final(self)@.logs[commitment_id@].history.last()),
                HealthMetrics { drawdown_percent, last_attestation: now, ..metrics_of(old(self)@, *commitment_id) },
            ) && written_by(
                final(self)@.logs[commitment_id@].history.last(),
                commitment_id@,
                AttestationType::Drawdown,
                caller@,
                now,
            ),
    {
        if !self.access.is_authorized(caller) {
            return Err(AttestationError::Unauthorized);
        }
        if self.history_len(commitment_id) >= usize::MAX - 2 {
            return Err(AttestationError::StorageFull);
        }
        let current = self.current_metrics(commitment_id);
        let metrics = HealthMetrics { drawdown_percent, last_attestation: now, ..current };
        let a = Attestation {
            commitment_id: commitment_id.clone(),
            timestamp: now,
            attestation_type: AttestationType::Drawdown,
            data: String::new(),
            is_compliant: true,
            verified_by: caller.duplicate(),
        };
        self.write_log(commitment_id, Some(a), metrics);
        Ok(())
    }
}

} // verus!
