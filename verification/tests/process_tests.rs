//! The process manager: serialized commands over the process table, id
//! minting, and the persist semantics at connection teardown.

use distant::process::{
    connection_closed, process_task, InnerProcessMsg, ProcessError, ProcessReply, ProcessState,
    PtySize,
};

fn spawn_msg(persist: bool, pty: Option<PtySize>, origin: u64) -> InnerProcessMsg {
    InnerProcessMsg::Spawn {
        cmd: "echo hi".to_string(),
        environment: vec![("KEY".to_string(), "value".to_string())],
        current_dir: None,
        persist,
        pty,
        origin,
    }
}

fn some_pty() -> PtySize {
    PtySize { rows: 24, cols: 80, pixel_width: 0, pixel_height: 0 }
}

#[test]
fn spawn_mints_fresh_ids_in_order() {
    let mut state = ProcessState::new();
    let r1 = process_task(&mut state, &spawn_msg(false, None, 10), true);
    let r2 = process_task(&mut state, &spawn_msg(false, None, 10), true);
    assert_eq!(r1, ProcessReply::Spawned(0));
    assert_eq!(r2, ProcessReply::Spawned(1));
    assert!(state.contains(0));
    assert!(state.contains(1));
}

#[test]
fn failed_spawn_registers_nothing() {
    let mut state = ProcessState::new();
    let r = process_task(&mut state, &spawn_msg(false, None, 10), false);
    assert_eq!(r, ProcessReply::Failed(ProcessError::SpawnFailed));
    assert!(!state.contains(0));
}

#[test]
fn stdin_on_unknown_id_is_no_such_process() {
    let mut state = ProcessState::new();
    let r = process_task(
        &mut state,
        &InnerProcessMsg::Stdin { id: 42, data: b"hello".to_vec() },
        false,
    );
    assert_eq!(r, ProcessReply::Failed(ProcessError::NoSuchProcess));
}

#[test]
fn kill_and_resize_on_unknown_id_are_no_such_process() {
    let mut state = ProcessState::new();
    assert_eq!(
        process_task(&mut state, &InnerProcessMsg::Kill { id: 7 }, false),
        ProcessReply::Failed(ProcessError::NoSuchProcess)
    );
    assert_eq!(
        process_task(&mut state, &InnerProcessMsg::Resize { id: 7, size: some_pty() }, false),
        ProcessReply::Failed(ProcessError::NoSuchProcess)
    );
}

#[test]
fn resize_requires_a_pty() {
    let mut state = ProcessState::new();
    process_task(&mut state, &spawn_msg(false, None, 1), true);
    process_task(&mut state, &spawn_msg(false, Some(some_pty()), 1), true);

    assert_eq!(
        process_task(&mut state, &InnerProcessMsg::Resize { id: 0, size: some_pty() }, false),
        ProcessReply::Failed(ProcessError::NoPty)
    );
    assert_eq!(
        process_task(&mut state, &InnerProcessMsg::Resize { id: 1, size: some_pty() }, false),
        ProcessReply::Done
    );
}

#[test]
fn stdin_fails_once_the_sink_is_closed() {
    let mut state = ProcessState::new();
    process_task(&mut state, &spawn_msg(false, None, 1), true);
    assert_eq!(
        process_task(&mut state, &InnerProcessMsg::Stdin { id: 0, data: vec![1] }, false),
        ProcessReply::Done
    );
    state.close_stdin(0);
    assert_eq!(
        process_task(&mut state, &InnerProcessMsg::Stdin { id: 0, data: vec![1] }, false),
        ProcessReply::Failed(ProcessError::StdinClosed)
    );
}

#[test]
fn commands_on_distinct_ids_never_observe_each_other() {
    let mut state = ProcessState::new();
    process_task(&mut state, &spawn_msg(false, None, 1), true);
    process_task(&mut state, &spawn_msg(false, Some(some_pty()), 2), true);

    // Interleave stdin/kill on the two ids: each answer depends on its own
    // process only.
    assert_eq!(
        process_task(&mut state, &InnerProcessMsg::Stdin { id: 0, data: vec![1] }, false),
        ProcessReply::Done
    );
    assert_eq!(
        process_task(&mut state, &InnerProcessMsg::Kill { id: 1 }, false),
        ProcessReply::Done
    );
    assert_eq!(
        process_task(&mut state, &InnerProcessMsg::InternalRemove { id: 1 }, false),
        ProcessReply::NoReply
    );
    // Reaping id 1 left id 0 exactly as it was.
    assert_eq!(
        process_task(&mut state, &InnerProcessMsg::Stdin { id: 0, data: vec![2] }, false),
        ProcessReply::Done
    );
    assert_eq!(
        process_task(&mut state, &InnerProcessMsg::Stdin { id: 1, data: vec![3] }, false),
        ProcessReply::Failed(ProcessError::NoSuchProcess)
    );
}

#[test]
fn reaper_removes_exactly_its_entry() {
    let mut state = ProcessState::new();
    process_task(&mut state, &spawn_msg(true, None, 1), true);
    process_task(&mut state, &spawn_msg(true, None, 1), true);
    process_task(&mut state, &InnerProcessMsg::InternalRemove { id: 0 }, false);
    assert!(!state.contains(0));
    assert!(state.contains(1));
}

#[test]
fn persisted_process_survives_its_connection() {
    let mut state = ProcessState::new();
    // Connection 5 spawns one persistent and one plain process.
    process_task(&mut state, &spawn_msg(true, None, 5), true);
    process_task(&mut state, &spawn_msg(false, None, 5), true);

    let killed = connection_closed(&mut state, 5);
    assert_eq!(killed, vec![1]);

    // A later kill from a fresh connection still finds the persisted one.
    assert_eq!(
        process_task(&mut state, &InnerProcessMsg::Kill { id: 0 }, false),
        ProcessReply::Done
    );
    assert_eq!(
        process_task(&mut state, &InnerProcessMsg::Kill { id: 1 }, false),
        ProcessReply::Failed(ProcessError::NoSuchProcess)
    );
}

#[test]
fn closing_one_connection_leaves_other_connections_processes() {
    let mut state = ProcessState::new();
    process_task(&mut state, &spawn_msg(false, None, 5), true);
    process_task(&mut state, &spawn_msg(false, None, 6), true);

    let killed = connection_closed(&mut state, 5);
    assert_eq!(killed, vec![0]);
    assert!(!state.contains(0));
    assert!(state.contains(1));
}

#[test]
fn ids_are_not_reused_after_a_reap() {
    let mut state = ProcessState::new();
    process_task(&mut state, &spawn_msg(false, None, 1), true);
    process_task(&mut state, &InnerProcessMsg::InternalRemove { id: 0 }, false);
    // The next spawn mints a fresh id, never the reaped one.
    assert_eq!(
        process_task(&mut state, &spawn_msg(false, None, 1), true),
        ProcessReply::Spawned(1)
    );
}
