use vstd::prelude::*;

use crate::access_control::state_authorizes;
use crate::address::Address;
use crate::attestation_engine::{
    AttestationEngineContract, AttestationError, AttestationType, history_of, log_full,
    metrics_of, written_by,
};
use crate::commitment_core::{
    CommitmentCoreContract, CommitmentError, ValueUpdate, update_result, update_state,
};

verus! {

/// Why an operation spanning the registry and the ledger was rejected; it then changed neither.
#[derive(Copy, Clone, Debug, PartialEq, Eq, Structural)]
pub enum LifecycleError {
    Registry(CommitmentError),
    Ledger(AttestationError),
}

/// The ledger can take two more attestations for `id` from `recorder`.
pub open spec fn ledger_ready(
    ledger: crate::attestation_engine::EngineState,
    recorder: Seq<char>,
    id: Seq<char>,
) -> bool {
    state_authorizes(ledger.access, recorder) && history_of(ledger, id).len() + 3 < usize::MAX
}

/// A value update that leaves its trace in the ledger: a violation attestation when the update
/// finds excess loss or reached expiry, then a drawdown record, both written by `recorder` at `now`.
pub fn record_value_update(
    core: &mut CommitmentCoreContract,
    ledger: &mut AttestationEngineContract,
    caller: &Address,
    commitment_id: &String,
    new_value: i128,
    recorder: &Address,
    now: u64,
) -> (r: Result<ValueUpdate, LifecycleError>)
    requires
        old(core).wf(),
        old(ledger).wf(),
    ensures
        final(core).wf(),
        final(ledger).wf(),
        r is Err ==> final(core)@ == old(core)@ && final(ledger)@ == old(ledger)@,
        !state_authorizes(old(ledger)@.access, recorder@) ==> r == Err::<ValueUpdate, LifecycleError>(
            LifecycleError::Ledger(AttestationError::Unauthorized),
        ),
        state_authorizes(old(ledger)@.access, recorder@) && !ledger_ready(old(ledger)@, recorder@, commitment_id@)
            ==> r == Err::<ValueUpdate, LifecycleError>(LifecycleError::Ledger(AttestationError::StorageFull)),
        ledger_ready(old(ledger)@, recorder@, commitment_id@) ==> match update_result(
            old(core)@,
            caller@,
            commitment_id@,
            new_value,
            now,
        ) {
            Ok(u) => r == Ok::<ValueUpdate, LifecycleError>(u),
            Err(e) => r == Err::<ValueUpdate, LifecycleError>(LifecycleError::Registry(e)),
        },
        r is Ok ==> final(core)@ == update_state(old(core)@, caller@, commitment_id@, new_value, now),
        r matches Ok(u) ==> {
            let before = history_of(old(ledger)@, commitment_id@);
            let after = history_of(final(ledger)@, commitment_id@);
            &&& after.len() == before.len() + if u.violated {
                2int
            } else {
                1int
            }
            &&& after.subrange(0, before.len() as int) == before
            &&& u.violated ==> after[before.len() as int].attestation_type == AttestationType::Violation
                && after[before.len() as int].commitment_id@ == commitment_id@
                && after[before.len() as int].verified_by@ == recorder@ && after[before.len() as int].timestamp
                == now
            &&& written_by(after.last(), commitment_id@, AttestationType::Drawdown, recorder@, now)
            &&& metrics_of(final(ledger)@, *commitment_id) == (crate::attestation_engine::HealthMetrics {
                drawdown_percent: u.drawdown_percent,
                last_attestation: now,
                ..metrics_of(old(ledger)@, *commitment_id)
            })
            &&& forall|k: Seq<char>|
                k != commitment_id@ ==> #[trigger] final(ledger)@.logs.contains_key(k) == old(
                    ledger,
                )@.logs.contains_key(k) && (old(ledger)@.logs.contains_key(k) ==> final(ledger)@.logs[k]
                    == old(ledger)@.logs[k])
        },
{
    if !ledger.is_authorized_verifier(recorder) {
        return Err(LifecycleError::Ledger(AttestationError::Unauthorized));
    }
    if ledger.get_attestations_len(commitment_id) >= usize::MAX - 3 {
        return Err(LifecycleError::Ledger(AttestationError::StorageFull));
    }
    let update = match core.update_value(caller, commitment_id, new_value, now) {
        Ok(u) => u,
        Err(e) => {
            return Err(LifecycleError::Registry(e));
        },
    };
    let ghost mid = ledger@;
    if update.violated {
        let _ = ledger.attest(commitment_id, AttestationType::Violation, String::new(), recorder, now);
    }
    let ghost mid2 = ledger@;
    let _ = ledger.record_drawdown(recorder, commitment_id, update.drawdown_percent, now);
    proof {
        let before = history_of(old(ledger)@, commitment_id@);
        let after = history_of(ledger@, commitment_id@);
        if update.violated {
            assert(history_of(mid2, commitment_id@).len() == before.len() + 1);
            assert(after.subrange(0, before.len() as int) =~= before);
        } else {
            assert(after.subrange(0, before.len() as int) =~= before);
        }
    }
    Ok(update)
}

} // verus!
