//! The connection lifecycle, the server state with its shutdown timer, the
//! keychain, the verifier, and the reply queue.

use distant::auth::{server_handshake, AuthError, Verifier};
use distant::connection::{
    Backup, ConnectionState, ConnectionTask, ReadEvent, Request, ResponseQueue, ServerReply,
    TerminateReason, WriteEvent, step_accept, step_handshake, step_iteration, step_spawned,
};
use distant::keychain::Keychain;
use distant::server::{
    accept_connection, connection_finished, ServerState, Shutdown, ShutdownTimer,
};

#[test]
fn lifecycle_follows_the_specified_transitions() {
    let s = step_spawned(ConnectionState::Pending);
    assert_eq!(s, ConnectionState::Authenticating);

    // A dead verifier fails the handshake step.
    let (s2, why) = step_handshake(s, false, true);
    assert_eq!(s2, ConnectionState::Terminating);
    assert_eq!(why, Some(TerminateReason::VerifierDropped));

    // A failed handshake terminates before any request is accepted.
    let (s2, why) = step_handshake(s, true, false);
    assert_eq!(s2, ConnectionState::Terminating);
    assert_eq!(why, Some(TerminateReason::HandshakeFailed));

    // The good path reaches Accepted, then Running.
    let (s2, why) = step_handshake(s, true, true);
    assert_eq!(s2, ConnectionState::Accepted);
    assert_eq!(why, None);

    let (s3, why) = step_accept(s2, false, true);
    assert_eq!(s3, ConnectionState::Terminating);
    assert_eq!(why, Some(TerminateReason::HandlerDropped));

    let (s3, why) = step_accept(s2, true, false);
    assert_eq!(s3, ConnectionState::Terminating);
    assert_eq!(why, Some(TerminateReason::AcceptFailed));

    let (s3, why) = step_accept(s2, true, true);
    assert_eq!(s3, ConnectionState::Running);
    assert_eq!(why, None);
}

#[test]
fn iteration_terminates_on_close_and_sleeps_when_blocked() {
    let running = ConnectionState::Running;

    // A failed readiness probe terminates with an error.
    let d = step_iteration(running, false, false, false, None, None);
    assert_eq!(d.next, ConnectionState::Terminating);
    assert_eq!(d.terminate, Some(TerminateReason::ReadyFailed));

    // A clean close terminates without an error reason.
    let d = step_iteration(running, true, true, false, Some(ReadEvent::Closed), None);
    assert_eq!(d.next, ConnectionState::Terminating);
    assert_eq!(d.terminate, Some(TerminateReason::Closed));

    // A decoded frame is dispatched; the loop keeps running.
    let d = step_iteration(
        running,
        true,
        true,
        true,
        Some(ReadEvent::FrameOk),
        Some(WriteEvent::Wrote),
    );
    assert_eq!(d.next, ConnectionState::Running);
    assert!(d.dispatch);
    assert!(!d.sleep);

    // Bad bytes do not kill the connection and are not dispatched.
    let d = step_iteration(
        running,
        true,
        true,
        true,
        Some(ReadEvent::FrameInvalidRequest),
        Some(WriteEvent::Flushed),
    );
    assert_eq!(d.next, ConnectionState::Running);
    assert!(!d.dispatch);
    assert_eq!(d.terminate, None);

    // Both directions blocked: the pass sleeps.
    let d = step_iteration(
        running,
        true,
        true,
        true,
        Some(ReadEvent::WouldBlock),
        Some(WriteEvent::FlushedNothing),
    );
    assert!(d.sleep);

    // Read blocked but the write made progress: no sleep.
    let d = step_iteration(
        running,
        true,
        true,
        true,
        Some(ReadEvent::WouldBlock),
        Some(WriteEvent::Wrote),
    );
    assert!(!d.sleep);
}

#[test]
fn distinct_connections_get_distinct_ids() {
    // Ids are drawn at random from 64 bits; two fresh tasks colliding is
    // vanishingly unlikely.
    let a = ConnectionTask::build().spawn();
    let b = ConnectionTask::build().spawn();
    assert_ne!(a.id(), b.id());
}

#[test]
fn builder_keeps_the_id_through_every_setter() {
    let b = ConnectionTask::build();
    let task = b
        .handler(())
        .transport(())
        .keychain(Keychain::new())
        .sleep_duration(5)
        .spawn();
    assert!(!task.is_finished());
}

#[test]
fn server_state_tracks_connections_and_restarts_timer_when_empty() {
    let mut state: ServerState<&str> = ServerState::new();
    let mut timer = ShutdownTimer::start(Shutdown::AfterIdle(100));

    accept_connection(&mut state, &mut timer, 1, "conn-one");
    accept_connection(&mut state, &mut timer, 2, "conn-two");
    assert!(!timer.should_shutdown(1_000_000));

    // Removing one of two connections leaves the timer disarmed.
    connection_finished(&mut state, &mut timer, 1, 500);
    assert!(!timer.should_shutdown(1_000_000));

    // Removing the last one restarts the idle timer at `now` = 700.
    connection_finished(&mut state, &mut timer, 2, 700);
    assert!(!timer.should_shutdown(799));
    assert!(timer.should_shutdown(800));
}

#[test]
fn shutdown_timer_policies() {
    // Never: no deadline ever.
    let mut t = ShutdownTimer::start(Shutdown::Never);
    t.restart(0);
    assert!(!t.should_shutdown(u64::MAX));

    // AfterIdle: armed on restart, disarmed on accept.
    let mut t = ShutdownTimer::start(Shutdown::AfterIdle(50));
    t.restart(100);
    assert!(t.should_shutdown(150));
    t.cancel();
    assert!(!t.should_shutdown(150));

    // After: keeps counting through accepts.
    let mut t = ShutdownTimer::start(Shutdown::After(50));
    t.restart(100);
    t.cancel();
    assert!(t.should_shutdown(150));
}

#[test]
fn keychain_entries_are_consumed_exactly_once() {
    let mut kc: Keychain<Backup> = Keychain::new();
    let key = vec![1u8, 2, 3];
    assert!(!kc.contains(&key));

    kc.insert(key.clone(), Backup { sent_cnt: 7, received_cnt: 9 });
    assert!(kc.contains(&key));

    let taken = kc.take(&key).expect("entry present");
    assert_eq!(taken.sent_cnt, 7);
    assert_eq!(taken.received_cnt, 9);

    // Consumed: a second take finds nothing.
    assert!(kc.take(&key).is_none());
    assert!(!kc.contains(&key));
}

#[test]
fn keychain_insert_replaces_existing_entry() {
    let mut kc: Keychain<Backup> = Keychain::new();
    kc.insert(vec![1], Backup { sent_cnt: 1, received_cnt: 1 });
    kc.insert(vec![1], Backup { sent_cnt: 2, received_cnt: 2 });
    assert_eq!(kc.take(&[1]).expect("entry").sent_cnt, 2);
}

#[test]
fn static_key_verifier_requires_the_exact_key() {
    let v = Verifier::static_key(vec![4u8; 32]);
    assert_eq!(v.verify(&[4u8; 32], None), Ok(()));
    // A different key fails before any request is accepted.
    assert_eq!(v.verify(&[5u8; 32], None), Err(AuthError::KeyMismatch));
}

#[test]
fn none_verifier_accepts_anything() {
    let v = Verifier::none();
    assert_eq!(v.verify(b"whatever", None), Ok(()));
}

#[test]
fn prompt_verifier_accepts_only_advertised_methods() {
    let v = Verifier::prompt(vec!["password".to_string(), "key".to_string()]);
    let password = "password".to_string();
    let other = "other".to_string();
    assert_eq!(v.verify(b"", Some(&password)), Ok(()));
    assert_eq!(v.verify(b"", Some(&other)), Err(AuthError::UnknownMethod));
    assert_eq!(v.verify(b"", None), Err(AuthError::UnknownMethod));
}

#[test]
fn replies_carry_the_origin_of_their_request() {
    let request = Request { id: "r1".to_string(), payload: b"hello".to_vec() };
    let reply = ServerReply::for_request(&request);
    let mut queue = ResponseQueue::new();

    reply
        .send("fresh-id".to_string(), b"hello back".to_vec(), &mut queue)
        .expect("slot free");
    let response = queue.try_recv().expect("queued");
    assert_eq!(response.origin_id, "r1");
    assert_eq!(response.id, "fresh-id");
    assert_eq!(response.payload, b"hello back".to_vec());
}

#[test]
fn response_queue_holds_one_slot_for_backpressure() {
    let request = Request { id: "x".to_string(), payload: Vec::new() };
    let reply = ServerReply::for_request(&request);
    let mut queue = ResponseQueue::new();

    reply.send("a".to_string(), vec![1], &mut queue).expect("slot free");
    // The slot is full: a second send is refused and hands the response
    // back; the sender must wait for the client to drain.
    assert!(reply.send("b".to_string(), vec![2], &mut queue).is_err());

    let first = queue.try_recv().expect("queued");
    assert_eq!(first.origin_id, "x");
    // The slot is free again.
    reply.send("b".to_string(), vec![2], &mut queue).expect("slot free");
}

#[test]
fn abort_marks_the_task_terminating_then_finished() {
    let mut task = ConnectionTask::build().spawn();
    assert!(!task.is_finished());
    task.abort();
    assert!(!task.is_finished());
    task.finish();
    assert!(task.is_finished());
}

#[test]
fn handshake_recovers_backup_for_a_known_connection_key() {
    let verifier = Verifier::static_key(vec![7u8; 32]);
    let mut keychain: Keychain<Backup> = Keychain::new();
    keychain.insert(vec![1, 2, 3], Backup { sent_cnt: 4, received_cnt: 2 });

    // A rejected peer never touches the keychain.
    let r = server_handshake(&verifier, &[0u8; 32], None, &[1, 2, 3], &mut keychain);
    assert_eq!(r, Err(AuthError::KeyMismatch));
    assert!(keychain.contains(&[1, 2, 3]));

    // An authenticated reconnect recovers and consumes the backup.
    let r = server_handshake(&verifier, &[7u8; 32], None, &[1, 2, 3], &mut keychain);
    assert_eq!(r, Ok(Some(Backup { sent_cnt: 4, received_cnt: 2 })));
    assert!(!keychain.contains(&[1, 2, 3]));

    // A second reconnect with the same key starts fresh.
    let r = server_handshake(&verifier, &[7u8; 32], None, &[1, 2, 3], &mut keychain);
    assert_eq!(r, Ok(None));
}
