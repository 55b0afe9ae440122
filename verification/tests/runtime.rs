use garnet::reloadkey::{generate_keypair, ReloadAuth, ReloadReplayGuard, Signature};
use garnet::runtime::{
    admit_reload, plan_reload_drain, AskError, ReloadOutcome, RuntimeStats, SendError,
    DEFAULT_MAILBOX_CAPACITY,
};

fn request(target_version: u32, allow_downgrade: bool, sequence: u64) -> ReloadAuth {
    ReloadAuth { actor_id: [7u8; 32], target_version, allow_downgrade, sequence }
}

#[test]
fn default_mailbox_capacity_constant_is_1024() {
    assert_eq!(DEFAULT_MAILBOX_CAPACITY, 1024);
}

#[test]
fn backward_reload_is_refused_unless_allowed() {
    let id = [7u8; 32];
    let mut g = ReloadReplayGuard::default();
    assert_eq!(
        admit_reload(&None, &id, 2, &request(1, false, 1), &None, &mut g),
        Some(ReloadOutcome::DowngradeRefused { from: 2, to: 1 })
    );
    assert_eq!(admit_reload(&None, &id, 2, &request(1, true, 1), &None, &mut g), None);
    assert_eq!(admit_reload(&None, &id, 1, &request(2, false, 2), &None, &mut g), None);
    assert_eq!(admit_reload(&None, &id, 3, &request(3, false, 3), &None, &mut g), None);
}

#[test]
fn keyed_actor_refuses_unsigned_reload() {
    let (_, vk) = generate_keypair();
    let id = [7u8; 32];
    let mut g = ReloadReplayGuard::default();
    assert_eq!(
        admit_reload(&Some(vk), &id, 1, &request(2, false, 1), &None, &mut g),
        Some(ReloadOutcome::SignatureInvalid)
    );
    // The refused request does not advance the guard.
    assert_eq!(g.last_sequence(), 0);
}

#[test]
fn keyed_actor_refuses_wrong_signature_and_wrong_actor() {
    let (sk, vk) = generate_keypair();
    let (other_sk, _) = generate_keypair();
    let id = [7u8; 32];
    let mut g = ReloadReplayGuard::default();
    let auth = request(2, false, 1);
    let forged = auth.sign(&other_sk);
    assert_eq!(
        admit_reload(&Some(vk), &id, 1, &auth, &Some(forged), &mut g),
        Some(ReloadOutcome::SignatureInvalid)
    );
    let garbage = Signature::from_bytes(&[0u8; 64]);
    assert_eq!(
        admit_reload(&Some(vk), &id, 1, &auth, &Some(garbage), &mut g),
        Some(ReloadOutcome::SignatureInvalid)
    );
    // A genuine signature for another actor is refused here.
    let elsewhere = ReloadAuth { actor_id: [8u8; 32], ..auth.clone() };
    let sig = elsewhere.sign(&sk);
    assert_eq!(
        admit_reload(&Some(vk), &id, 1, &elsewhere, &Some(sig), &mut g),
        Some(ReloadOutcome::SignatureInvalid)
    );
    assert_eq!(g.last_sequence(), 0);
}

#[test]
fn signed_fresh_reload_is_honoured_and_replay_refused() {
    let (sk, vk) = generate_keypair();
    let id = [7u8; 32];
    let mut g = ReloadReplayGuard::default();
    let auth = request(2, false, 5);
    let sig = auth.sign(&sk);
    assert_eq!(admit_reload(&Some(vk), &id, 1, &auth, &Some(sig), &mut g), None);
    assert_eq!(g.last_sequence(), 5);
    assert_eq!(
        admit_reload(&Some(vk), &id, 2, &auth, &Some(sig), &mut g),
        Some(ReloadOutcome::ReplayRefused { last: 5, sequence: 5 })
    );
    let older = request(3, false, 4);
    let older_sig = older.sign(&sk);
    assert_eq!(
        admit_reload(&Some(vk), &id, 2, &older, &Some(older_sig), &mut g),
        Some(ReloadOutcome::ReplayRefused { last: 5, sequence: 4 })
    );
    assert_eq!(g.last_sequence(), 5);
}

#[test]
fn signed_downgrade_is_refused_without_consuming_the_sequence() {
    let (sk, vk) = generate_keypair();
    let id = [7u8; 32];
    let mut g = ReloadReplayGuard::default();
    let down = request(1, false, 9);
    let sig = down.sign(&sk);
    assert_eq!(
        admit_reload(&Some(vk), &id, 3, &down, &Some(sig), &mut g),
        Some(ReloadOutcome::DowngradeRefused { from: 3, to: 1 })
    );
    assert_eq!(g.last_sequence(), 0);
}

#[test]
fn draining_replays_users_and_refuses_queued_reloads() {
    let pending = vec![None, Some(5), None, None, Some(1)];
    let (outcome, refusals) = plan_reload_drain(2, &pending);
    assert_eq!(outcome, ReloadOutcome::Applied { replayed: 3 });
    assert_eq!(
        refusals,
        vec![
            ReloadOutcome::DowngradeRefused { from: 2, to: 5 },
            ReloadOutcome::DowngradeRefused { from: 2, to: 1 },
        ]
    );
    let (outcome, refusals) = plan_reload_drain(7, &Vec::new());
    assert_eq!(outcome, ReloadOutcome::Applied { replayed: 0 });
    assert!(refusals.is_empty());
}

#[test]
fn stats_never_report_negative_running() {
    let s = RuntimeStats::from_counts(3, 1);
    assert_eq!((s.spawned, s.running, s.stopped), (3, 2, 1));
    let s = RuntimeStats::from_counts(1, 2);
    assert_eq!(s.running, 0);
}

#[test]
fn error_texts_match_the_display_forms() {
    assert_eq!(AskError::MailboxClosed.message(), "actor mailbox is closed");
    assert_eq!(AskError::Timeout.message(), "actor did not reply within timeout");
    assert_eq!(AskError::ReplyDropped.message(), "reply channel was dropped");
    assert_eq!(AskError::MailboxFull.message(), "actor mailbox is full");
    assert_eq!(SendError::Full.message(), "actor mailbox is full");
    assert_eq!(SendError::Closed.message(), "actor mailbox is closed");
}
