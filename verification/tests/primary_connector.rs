use narwhal_gc::primary_connector::{
    ConnectorAction, ConnectorEvent, PrimaryConnector, MAX_PENDING_DIGESTS,
};
use narwhal_gc::types::{BatchDigest, NetworkPublicKey, ReconfigureNotification,
    WorkerPrimaryMessage};

fn msg(d: u64) -> WorkerPrimaryMessage {
    WorkerPrimaryMessage { digest: BatchDigest(d), worker_id: 0 }
}

#[test]
fn ceiling_drops_new_digests() {
    // A primary that never completes sends: fill all slots, then one more.
    let mut c = PrimaryConnector::new(NetworkPublicKey(7));
    for i in 0..MAX_PENDING_DIGESTS {
        let a = c.handle_event(ConnectorEvent::Digest(msg(i as u64)));
        assert_eq!(a, ConnectorAction::StartSend(NetworkPublicKey(7), msg(i as u64)));
    }
    assert_eq!(c.in_flight, MAX_PENDING_DIGESTS);
    // The (ceiling + 1)-th digest is dropped, not queued and not sent.
    let extra = msg(123_456);
    let a = c.handle_event(ConnectorEvent::Digest(extra));
    assert_eq!(a, ConnectorAction::DropDigest(extra));
    assert_eq!(c.in_flight, MAX_PENDING_DIGESTS);
    assert_eq!(c.dropped_digest_count, 1);
}

#[test]
fn completed_send_frees_a_slot() {
    let mut c = PrimaryConnector::new(NetworkPublicKey(7));
    for i in 0..MAX_PENDING_DIGESTS {
        c.handle_event(ConnectorEvent::Digest(msg(i as u64)));
    }
    let a = c.handle_event(ConnectorEvent::SendCompleted);
    assert_eq!(a, ConnectorAction::Continue);
    assert_eq!(c.in_flight, MAX_PENDING_DIGESTS - 1);
    let a = c.handle_event(ConnectorEvent::Digest(msg(9)));
    assert_eq!(a, ConnectorAction::StartSend(NetworkPublicKey(7), msg(9)));
    assert_eq!(c.in_flight, MAX_PENDING_DIGESTS);
}

#[test]
fn shutdown_exits_immediately() {
    let mut c = PrimaryConnector::new(NetworkPublicKey(7));
    let events = vec![
        ConnectorEvent::Digest(msg(1)),
        ConnectorEvent::Reconfigure(ReconfigureNotification::Shutdown),
        ConnectorEvent::Digest(msg(2)),
    ];
    let actions = c.run(events);
    // The loop ends at the shutdown event; the digest after it is never seen.
    assert_eq!(
        actions,
        vec![
            ConnectorAction::StartSend(NetworkPublicKey(7), msg(1)),
            ConnectorAction::Exit,
        ]
    );
    assert!(c.shut_down);
    assert_eq!(c.in_flight, 1);
}

#[test]
fn other_reconfigurations_are_observed_and_ignored() {
    let mut c = PrimaryConnector::new(NetworkPublicKey(7));
    let a = c.handle_event(ConnectorEvent::Reconfigure(ReconfigureNotification::NewEpoch(3)));
    assert_eq!(a, ConnectorAction::Continue);
    let a = c.handle_event(ConnectorEvent::Reconfigure(
        ReconfigureNotification::UpdateCommittee(4),
    ));
    assert_eq!(a, ConnectorAction::Continue);
    assert!(!c.shut_down);
    assert_eq!(c.in_flight, 0);
    assert_eq!(c.dropped_digest_count, 0);
}

#[test]
fn run_relays_in_order() {
    let mut c = PrimaryConnector::new(NetworkPublicKey(9));
    let actions = c.run(vec![
        ConnectorEvent::Digest(msg(1)),
        ConnectorEvent::Digest(msg(2)),
        ConnectorEvent::SendCompleted,
        ConnectorEvent::Digest(msg(3)),
    ]);
    assert_eq!(
        actions,
        vec![
            ConnectorAction::StartSend(NetworkPublicKey(9), msg(1)),
            ConnectorAction::StartSend(NetworkPublicKey(9), msg(2)),
            ConnectorAction::Continue,
            ConnectorAction::StartSend(NetworkPublicKey(9), msg(3)),
        ]
    );
    assert_eq!(c.in_flight, 2);
    assert!(!c.shut_down);
}

#[test]
fn completion_on_idle_connector_is_harmless() {
    let mut c = PrimaryConnector::new(NetworkPublicKey(7));
    let a = c.handle_event(ConnectorEvent::SendCompleted);
    assert_eq!(a, ConnectorAction::Continue);
    assert_eq!(c.in_flight, 0);
}
