//! The actor runtime's decisions: mailbox sizing, the counters it reports,
//! the errors a sender sees, and hot reload.
//!
//! A reload command is refused, without running the migrator, when the
//! actor carries a reload key and the request is not signed by it (or is
//! signed for another actor), when its sequence number is not strictly
//! greater than the last one honoured, or when it would downgrade the schema
//! version and the caller did not allow that.
//! Otherwise the mailbox is drained: buffered user messages are replayed
//! against the new behaviour, and any further reload found in the queue is
//! refused (one hot swap per receive). The threads and channels that carry
//! these decisions out live with the caller.

use vstd::prelude::*;
use vstd::string::*;
use crate::reloadkey::{
    ed25519_accepts, signing_bytes, ReloadAuth, ReloadReplayGuard, Signature, VerifyingKey,
};

verus! {

/// Default mailbox capacity of an actor.
pub const DEFAULT_MAILBOX_CAPACITY: usize = 1024;

/// A failure of a synchronous request to an actor.
#[derive(Debug, Clone, Copy, PartialEq, Eq, Structural)]
pub enum AskError {
    /// The actor has shut down.
    MailboxClosed,
    /// The actor accepted the message but did not reply in time.
    Timeout,
    /// The reply channel was dropped before producing a value.
    ReplyDropped,
    /// The mailbox is at capacity.
    MailboxFull,
}

/// A failure of a non-blocking send.
#[derive(Debug, Clone, Copy, PartialEq, Eq, Structural)]
pub enum SendError {
    /// The mailbox is at capacity; the message was not queued.
    Full,
    /// The actor has shut down.
    Closed,
}

/// The description of a request failure.
pub open spec fn ask_error_text(e: AskError) -> Seq<char> {
    match e {
        AskError::MailboxClosed => "actor mailbox is closed"@,
        AskError::Timeout => "actor did not reply within timeout"@,
        AskError::ReplyDropped => "reply channel was dropped"@,
        AskError::MailboxFull => "actor mailbox is full"@,
    }
}

/// The description of a send failure.
pub open spec fn send_error_text(e: SendError) -> Seq<char> {
    match e {
        SendError::Full => "actor mailbox is full"@,
        SendError::Closed => "actor mailbox is closed"@,
    }
}

impl AskError {
    /// The human-readable description.
    pub fn message(&self) -> (m: &'static str)
        ensures
            m@ == ask_error_text(*self),
    {
        match self {
            AskError::MailboxClosed => "actor mailbox is closed",
            AskError::Timeout => "actor did not reply within timeout",
            AskError::ReplyDropped => "reply channel was dropped",
            AskError::MailboxFull => "actor mailbox is full",
        }
    }
}

impl SendError {
    /// The human-readable description.
    pub fn message(&self) -> (m: &'static str)
        ensures
            m@ == send_error_text(*self),
    {
        match self {
            SendError::Full => "actor mailbox is full",
            SendError::Closed => "actor mailbox is closed",
        }
    }
}

/// Outcome of a hot-reload attempt.
#[derive(Debug, Clone, Copy, PartialEq, Eq, Structural)]
pub enum ReloadOutcome {
    /// The new behaviour is installed and `replayed` buffered messages were
    /// processed against it.
    Applied { replayed: usize },
    /// The target version is lower than the current one and downgrades were
    /// not allowed (or another reload was already in progress).
    DowngradeRefused { from: u32, to: u32 },
    /// The actor carries a reload key and the request is unsigned, or its
    /// signature does not verify under that key over the request's canonical
    /// bytes for this actor.
    SignatureInvalid,
    /// The request's sequence number is not strictly greater than the last
    /// one honoured (`last`): a replayed or stale request.
    ReplayRefused { last: u64, sequence: u64 },
}

/// Aggregate counters of a runtime.
#[derive(Debug, Clone, Copy, PartialEq, Eq, Structural, Default)]
pub struct RuntimeStats {
    pub spawned: usize,
    pub running: usize,
    pub stopped: usize,
}

impl RuntimeStats {
    /// The counters for `spawned` actors of which `stopped` have finished;
    /// the running count never goes below zero.
    pub fn from_counts(spawned: usize, stopped: usize) -> (s: RuntimeStats)
        ensures
            s.spawned == spawned,
            s.stopped == stopped,
            s.running == if stopped <= spawned {
                (spawned - stopped) as usize
            } else {
                0
            },
    {
        RuntimeStats { spawned, stopped, running: spawned.saturating_sub(stopped) }
    }
}

/// Whether a reload from schema version `from` to `to` must be refused.
pub open spec fn downgrade_refused(from: u32, to: u32, allow_downgrade: bool) -> bool {
    to < from && !allow_downgrade
}

/// The key bytes an actor carries, if any.
pub open spec fn key_bytes(key: Option<VerifyingKey>) -> Option<Seq<u8>> {
    match key {
        Some(vk) => Some(vk@),
        None => None,
    }
}

/// The signature bytes a request carries, if any.
pub open spec fn signature_bytes(sig: Option<Signature>) -> Option<Seq<u8>> {
    match sig {
        Some(s) => Some(s@),
        None => None,
    }
}

/// Whether a request carries the authority the actor demands: an actor
/// without a reload key takes any request; one with a key takes only a
/// request for this actor whose signature verifies under the key.
pub open spec fn reload_authorised(
    key: Option<Seq<u8>>,
    actor_id: Seq<u8>,
    auth: ReloadAuth,
    sig: Option<Seq<u8>>,
) -> bool {
    match key {
        None => true,
        Some(vk) => auth.actor_id@ == actor_id && (sig matches Some(s) && ed25519_accepts(
            vk,
            signing_bytes(auth),
            s,
        )),
    }
}

/// The admission of a reload request to an actor at schema version
/// `current` whose replay guard last honoured `last`: its refusal, checked
/// in this order, or `None` when the migrator may run.
pub open spec fn signed_admission(
    key: Option<Seq<u8>>,
    actor_id: Seq<u8>,
    current: u32,
    last: u64,
    auth: ReloadAuth,
    sig: Option<Seq<u8>>,
) -> Option<ReloadOutcome> {
    if !reload_authorised(key, actor_id, auth, sig) {
        Some(ReloadOutcome::SignatureInvalid)
    } else if auth.sequence <= last {
        Some(ReloadOutcome::ReplayRefused { last, sequence: auth.sequence })
    } else if downgrade_refused(current, auth.target_version, auth.allow_downgrade) {
        Some(ReloadOutcome::DowngradeRefused { from: current, to: auth.target_version })
    } else {
        None
    }
}

/// Whether two actor identities are the same.
fn same_actor(a: &[u8; 32], b: &[u8; 32]) -> (r: bool)
    ensures
        r == (a@ == b@),
{
    let mut i: usize = 0;
    while i < 32
        invariant
            i <= 32,
            a@.len() == 32,
            b@.len() == 32,
            forall|j: int| 0 <= j < i ==> a@[j] == b@[j],
        decreases 32 - i,
    {
        if a[i] != b[i] {
            return false;
        }
        i = i + 1;
    }
    assert(a@ =~= b@);
    true
}

/// Decides a reload request before any migrator runs. The request is
/// refused with `SignatureInvalid` when the actor carries a key and the
/// request is unsigned, signed for another actor, or wrongly signed; with
/// `ReplayRefused` when its sequence number is not fresh; with
/// `DowngradeRefused` when it would downgrade without leave. Only an
/// admitted request advances the replay guard to its sequence number.
pub fn admit_reload(
    key: &Option<VerifyingKey>,
    actor_id: &[u8; 32],
    current: u32,
    auth: &ReloadAuth,
    sig: &Option<Signature>,
    guard: &mut ReloadReplayGuard,
) -> (r: Option<ReloadOutcome>)
    ensures
        r == signed_admission(key_bytes(*key), actor_id@, current, old(guard)@, *auth, signature_bytes(*sig)),
        final(guard)@ == if r is None {
            auth.sequence
        } else {
            old(guard)@
        },
{
    match key {
        Some(vk) => {
            if !same_actor(&auth.actor_id, actor_id) {
                return Some(ReloadOutcome::SignatureInvalid);
            }
            match sig {
                None => {
                    return Some(ReloadOutcome::SignatureInvalid);
                },
                Some(s) => {
                    if !auth.verify(vk, s) {
                        return Some(ReloadOutcome::SignatureInvalid);
                    }
                },
            }
        },
        None => {},
    }
    let last = guard.last_sequence();
    if auth.sequence <= last {
        return Some(ReloadOutcome::ReplayRefused { last, sequence: auth.sequence });
    }
    if auth.target_version < current && !auth.allow_downgrade {
        return Some(ReloadOutcome::DowngradeRefused { from: current, to: auth.target_version });
    }
    let honoured = guard.check_and_record(auth.sequence);
    assert(honoured is Ok);
    None
}

/// A reload to an actor that carries a reload key is honoured only when it
/// is signed by that key for this actor and its sequence number is fresh;
/// once honoured, the same request presented again is refused as a replay,
/// whatever the actor's version by then.
pub proof fn lemma_reload_honoured_only_when_signed_and_fresh(
    vk: Seq<u8>,
    actor_id: Seq<u8>,
    current: u32,
    later_version: u32,
    last: u64,
    auth: ReloadAuth,
    sig: Option<Seq<u8>>,
)
    ensures
        signed_admission(Some(vk), actor_id, current, last, auth, sig) is None ==> {
            &&& sig matches Some(s) && ed25519_accepts(vk, signing_bytes(auth), s)
            &&& auth.actor_id@ == actor_id
            &&& auth.sequence > last
            &&& signed_admission(Some(vk), actor_id, later_version, auth.sequence, auth, sig)
                == Some(ReloadOutcome::ReplayRefused { last: auth.sequence, sequence: auth.sequence })
        },
        sig is None ==> signed_admission(Some(vk), actor_id, current, last, auth, sig)
            == Some(ReloadOutcome::SignatureInvalid),
{
}

/// The number of user messages among the drained items (`None` is a user
/// message, `Some(v)` a reload command targeting version `v`).
pub open spec fn user_count(pending: Seq<Option<u32>>) -> nat
    decreases pending.len(),
{
    if pending.len() == 0 {
        0
    } else {
        user_count(pending.drop_last()) + if pending.last() is None {
            1nat
        } else {
            0nat
        }
    }
}

/// The refusals answered to the reloads found while draining, in queue
/// order: each is told the version being installed and its own target.
pub open spec fn drain_refusals(installing: u32, pending: Seq<Option<u32>>) -> Seq<ReloadOutcome>
    decreases pending.len(),
{
    if pending.len() == 0 {
        Seq::empty()
    } else {
        drain_refusals(installing, pending.drop_last()) + match pending.last() {
            Some(t) => seq![ReloadOutcome::DowngradeRefused { from: installing, to: t }],
            None => Seq::empty(),
        }
    }
}

/// What draining the mailbox during a reload to `installing` decides: the
/// outcome of the reload itself (every buffered user message is replayed)
/// and the refusals of the reloads that were queued behind it.
pub fn plan_reload_drain(installing: u32, pending: &Vec<Option<u32>>) -> (r: (
    ReloadOutcome,
    Vec<ReloadOutcome>,
))
    ensures
        r.0 == (ReloadOutcome::Applied { replayed: user_count(pending@) as usize }),
        r.1@ == drain_refusals(installing, pending@),
        user_count(pending@) <= pending@.len(),
{
    let mut replayed: usize = 0;
    let mut refusals: Vec<ReloadOutcome> = Vec::new();
    let mut i: usize = 0;
    while i < pending.len()
        invariant
            i <= pending@.len(),
            replayed == user_count(pending@.subrange(0, i as int)),
            replayed <= i,
            refusals@ == drain_refusals(installing, pending@.subrange(0, i as int)),
        decreases pending@.len() - i,
    {
        proof {
            let pre = pending@.subrange(0, i as int + 1);
            assert(pre.drop_last() =~= pending@.subrange(0, i as int));
            assert(pre.last() == pending@[i as int]);
        }
        match pending[i] {
            None => {
                replayed = replayed + 1;
            },
            Some(t) => {
                refusals.push(ReloadOutcome::DowngradeRefused { from: installing, to: t });
            },
        }
        i = i + 1;
    }
    assert(pending@.subrange(0, i as int) =~= pending@);
    (ReloadOutcome::Applied { replayed }, refusals)
}

/// Every drained item is accounted for: each user message is replayed and
/// each queued reload is refused.
pub proof fn lemma_drain_accounts_for_everything(installing: u32, pending: Seq<Option<u32>>)
    ensures
        user_count(pending) + drain_refusals(installing, pending).len() == pending.len(),
    decreases pending.len(),
{
    if pending.len() > 0 {
        lemma_drain_accounts_for_everything(installing, pending.drop_last());
    }
}

} // verus!
