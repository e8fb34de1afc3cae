use rsrs::protocol::{
    ChannelCommand, ChannelData, ExitStatus, Id, ProcessExitStatus, ProcessKind, RemoteCommand,
    SetEnv, Spawn, SpawnCommand,
};
use rsrs::router::{Action, Router, SPAWN_REFUSED_CODE};
use rsrs::session::{allocate_pty, forward_env_vars, pty_mode, spawn_command};

fn spawn_of(id: Id) -> Spawn {
    Spawn { id, command: SpawnCommand::LoginShell, env_vars: Vec::new(), pty: None }
}

#[test]
fn new_ids_count_up_with_kind() {
    let mut r = Router::new(ProcessKind::Local);
    assert_eq!(r.new_id(), Id(ProcessKind::Local, 0));
    assert_eq!(r.new_id(), Id(ProcessKind::Local, 1));
    let mut r = Router::new(ProcessKind::Remote);
    assert_eq!(r.new_id(), Id(ProcessKind::Remote, 0));
}

#[test]
fn second_insert_of_live_id_is_refused() {
    let mut r = Router::new(ProcessKind::Local);
    let id = r.new_id();
    let first = r.insert_channel(id);
    assert!(first.is_some());
    let other = r.insert_channel(Id(ProcessKind::Local, 42));
    assert!(other.is_some());
    assert!(r.insert_channel(id).is_none());
}

#[test]
fn kinds_keep_equal_numbers_apart() {
    let mut r = Router::new(ProcessKind::Local);
    assert!(r.insert_channel(Id(ProcessKind::Local, 0)).is_some());
    assert!(r.insert_channel(Id(ProcessKind::Remote, 0)).is_some());
}

#[test]
fn removed_channel_frees_its_id() {
    let mut r = Router::new(ProcessKind::Local);
    let id = Id(ProcessKind::Remote, 7);
    let rx = r.insert_channel(id).unwrap();
    assert!(r.get_channel(id).is_some());
    assert_eq!(r.remove_channel(rx.index), Some(id));
    assert!(r.get_channel(id).is_none());
    assert_eq!(r.remove_channel(rx.index), None);
    let again = r.insert_channel(id).unwrap();
    // The stale index does not remove the new entry.
    assert_eq!(r.remove_channel(rx.index), None);
    assert!(r.get_channel(id).is_some());
    assert_eq!(r.remove_channel(again.index), Some(id));
}

#[test]
fn status_slot_is_taken_once() {
    let mut r = Router::new(ProcessKind::Local);
    let id = r.new_id();
    let mut rx = r.insert_status_notifier(id).unwrap();
    assert!(r.insert_status_notifier(id).is_none());
    let tx = r.take_status(id).unwrap();
    assert!(r.take_status(id).is_none());
    let status = ProcessExitStatus { id, status: ExitStatus::Code(0) };
    tx.send(status).unwrap();
    assert_eq!(rx.rx.try_recv().unwrap(), status);
    assert_eq!(r.remove_status(rx.index), None);
}

#[test]
fn dropped_status_receiver_removes_slot() {
    let mut r = Router::new(ProcessKind::Local);
    let id = r.new_id();
    let rx = r.insert_status_notifier(id).unwrap();
    assert_eq!(r.remove_status(rx.index), Some(id));
    assert!(r.take_status(id).is_none());
}

#[test]
fn spawn_opens_channel_once() {
    let mut r = Router::new(ProcessKind::Remote);
    let id = Id(ProcessKind::Local, 0);
    match r.handle_frame(RemoteCommand::Spawn(spawn_of(id))) {
        Action::StartProcess(rx, s) => {
            assert_eq!(s, spawn_of(id));
            assert!(r.get_channel(id).is_some());
            drop(rx);
        }
        _ => panic!("expected the process to start"),
    }
    match r.handle_frame(RemoteCommand::Spawn(spawn_of(id))) {
        Action::Reply(frame) => assert_eq!(
            frame,
            RemoteCommand::ProcessExit(ProcessExitStatus {
                id,
                status: ExitStatus::Code(SPAWN_REFUSED_CODE)
            })
        ),
        _ => panic!("expected a refusal"),
    }
    assert_eq!(SPAWN_REFUSED_CODE, 127);
}

#[test]
fn channel_data_goes_to_live_channel_in_order() {
    let mut r = Router::new(ProcessKind::Remote);
    let id = Id(ProcessKind::Local, 3);
    let mut rx = r.insert_channel(id).unwrap();
    let sent = vec![
        ChannelData::Output(b"hello\n".to_vec()),
        ChannelData::WindowSizeChange(132, 50),
        ChannelData::Shutdown,
    ];
    for d in &sent {
        match r.handle_frame(RemoteCommand::Channel(ChannelCommand { id, data: d.clone() })) {
            Action::Deliver(mut tx, data) => tx.try_send(data).unwrap(),
            _ => panic!("expected delivery"),
        }
    }
    for d in &sent {
        assert_eq!(&rx.rx.try_recv().unwrap(), d);
    }
}

#[test]
fn frames_for_unknown_ids_are_discarded() {
    let mut r = Router::new(ProcessKind::Remote);
    let id = Id(ProcessKind::Local, 9);
    let data = ChannelData::Output(b"late".to_vec());
    assert!(matches!(
        r.handle_frame(RemoteCommand::Channel(ChannelCommand { id, data })),
        Action::Discard
    ));
    let p = ProcessExitStatus { id, status: ExitStatus::Signal(9) };
    assert!(matches!(r.handle_frame(RemoteCommand::ProcessExit(p)), Action::Discard));
}

#[test]
fn process_exit_fulfils_waiter() {
    let mut r = Router::new(ProcessKind::Local);
    let id = r.new_id();
    let mut rx = r.insert_status_notifier(id).unwrap();
    let p = ProcessExitStatus { id, status: ExitStatus::Code(3) };
    match r.handle_frame(RemoteCommand::ProcessExit(p)) {
        Action::Notify(tx, q) => {
            assert_eq!(q, p);
            tx.send(q).unwrap();
        }
        _ => panic!("expected notification"),
    }
    assert_eq!(rx.rx.try_recv().unwrap(), p);
    assert!(r.take_status(id).is_none());
}

#[test]
fn set_env_and_exit_frames() {
    let mut r = Router::new(ProcessKind::Remote);
    let pairs = vec![(b"TERM".to_vec(), b"xterm-256color".to_vec())];
    match r.handle_frame(RemoteCommand::SetEnv(SetEnv { env_vars: pairs.clone() })) {
        Action::SetEnv(p) => assert_eq!(p, pairs),
        _ => panic!("expected environment"),
    }
    assert!(matches!(r.handle_frame(RemoteCommand::Exit), Action::Stop));
}

#[test]
fn exit_status_mapping() {
    assert_eq!(ExitStatus::from_wait(Some(0), None), ExitStatus::Code(0));
    assert_eq!(ExitStatus::from_wait(Some(3), None), ExitStatus::Code(3));
    assert_eq!(ExitStatus::from_wait(None, Some(9)), ExitStatus::Signal(9));
    assert_eq!(ExitStatus::Code(0).exit_code(), 0);
    assert_eq!(ExitStatus::Code(2).exit_code(), 2);
    assert_eq!(ExitStatus::Signal(15).exit_code(), 143);
}

#[test]
fn echo_round_trip_without_pty() {
    // The initiator opens channel 0 and asks the peer to run cat on it.
    let mut local = Router::new(ProcessKind::Local);
    let mut remote = Router::new(ProcessKind::Remote);
    let id = local.new_id();
    let mut status_rx = local.insert_status_notifier(id).unwrap();
    let mut local_rx = local.insert_channel(id).unwrap();
    let spawn = Spawn {
        id,
        command: SpawnCommand::Program(b"/bin/cat".to_vec(), vec![]),
        env_vars: vec![],
        pty: None,
    };
    let mut remote_rx = match remote.handle_frame(RemoteCommand::Spawn(spawn)) {
        Action::StartProcess(rx, _) => rx,
        _ => panic!("expected the process to start"),
    };
    // "hello\n" goes to the peer's sink ...
    let frame = rsrs::endpoint::source_frame(id, b"hello\n".to_vec());
    match remote.handle_frame(frame) {
        Action::Deliver(mut tx, d) => tx.try_send(d).unwrap(),
        _ => panic!("expected delivery"),
    }
    let echoed = match remote_rx.rx.try_recv().unwrap() {
        ChannelData::Output(b) => b,
        _ => panic!("expected output"),
    };
    // ... and what cat writes back reaches the initiator's sink.
    match local.handle_frame(rsrs::endpoint::source_frame(id, echoed)) {
        Action::Deliver(mut tx, d) => tx.try_send(d).unwrap(),
        _ => panic!("expected delivery"),
    }
    assert_eq!(local_rx.rx.try_recv().unwrap(), ChannelData::Output(b"hello\n".to_vec()));
    let exit = rsrs::endpoint::exit_frame(id, ExitStatus::from_wait(Some(0), None));
    match local.handle_frame(exit) {
        Action::Notify(tx, p) => tx.send(p).unwrap(),
        _ => panic!("expected notification"),
    }
    assert_eq!(status_rx.rx.try_recv().unwrap().status, ExitStatus::Code(0));
}

#[test]
fn window_size_change_reaches_pty_sink() {
    let mut remote = Router::new(ProcessKind::Remote);
    let id = Id(ProcessKind::Local, 0);
    let spawn = Spawn {
        id,
        command: SpawnCommand::LoginShell,
        env_vars: vec![(b"TERM".to_vec(), b"xterm-256color".to_vec())],
        pty: Some(rsrs::protocol::PtyParam { width: 80, height: 24 }),
    };
    let mut rx = match remote.handle_frame(RemoteCommand::Spawn(spawn)) {
        Action::StartProcess(rx, s) => {
            assert_eq!(s.pty, Some(rsrs::protocol::PtyParam { width: 80, height: 24 }));
            rx
        }
        _ => panic!("expected the process to start"),
    };
    let frame = RemoteCommand::Channel(ChannelCommand {
        id,
        data: ChannelData::WindowSizeChange(132, 50),
    });
    match remote.handle_frame(frame) {
        Action::Deliver(mut tx, d) => tx.try_send(d).unwrap(),
        _ => panic!("expected delivery"),
    }
    let data = rx.rx.try_recv().unwrap();
    assert!(matches!(
        rsrs::endpoint::sink_action(data, true),
        rsrs::endpoint::SinkAction::Resize(132, 50)
    ));
}

#[test]
fn peer_closes_mid_stream() {
    // The peer's source sends ten bytes, then end of stream, then the exit.
    let mut local = Router::new(ProcessKind::Local);
    let id = local.new_id();
    let mut rx = local.insert_channel(id).unwrap();
    let mut status = local.insert_status_notifier(id).unwrap();
    for chunk in [b"0123456789".to_vec(), Vec::new()] {
        match local.handle_frame(rsrs::endpoint::source_frame(id, chunk)) {
            Action::Deliver(mut tx, d) => tx.try_send(d).unwrap(),
            _ => panic!("expected delivery"),
        }
    }
    match local.handle_frame(rsrs::endpoint::exit_frame(id, ExitStatus::Code(0))) {
        Action::Notify(tx, p) => tx.send(p).unwrap(),
        _ => panic!("expected notification"),
    }
    assert_eq!(rx.rx.try_recv().unwrap(), ChannelData::Output(b"0123456789".to_vec()));
    assert_eq!(rx.rx.try_recv().unwrap(), ChannelData::Shutdown);
    assert_eq!(status.rx.try_recv().unwrap().status, ExitStatus::Code(0));
}

#[test]
fn login_shell_with_pty_carries_term() {
    let command = spawn_command(false, &vec![]);
    assert_eq!(command, Some(SpawnCommand::LoginShell));
    assert!(allocate_pty(pty_mode(false, 0), &command, 0, true));
    let env_vars = forward_env_vars(vec![(b"TERM".to_vec(), Some(b"xterm-256color".to_vec()))]);
    let mut remote = Router::new(ProcessKind::Remote);
    let id = Id(ProcessKind::Local, 0);
    let spawn = Spawn {
        id,
        command: command.unwrap(),
        env_vars,
        pty: Some(rsrs::protocol::PtyParam { width: 80, height: 24 }),
    };
    match remote.handle_frame(RemoteCommand::Spawn(spawn)) {
        Action::StartProcess(_, s) => {
            assert_eq!(s.env_vars, vec![(b"TERM".to_vec(), b"xterm-256color".to_vec())]);
            let launch = rsrs::endpoint::plan_launch(s.command, Some(b"/bin/bash".to_vec())).unwrap();
            assert_eq!(launch.arg0, Some(b"-bash".to_vec()));
        }
        _ => panic!("expected the process to start"),
    }
}

#[test]
fn ids_are_available_on_a_new_router() {
    let mut r = Router::new(ProcessKind::Local);
    assert!(r.id_available());
    r.new_id();
    assert!(r.id_available());
}

#[test]
fn fresh_index_removal_leaves_other_channels() {
    let mut r = Router::new(ProcessKind::Local);
    let a = r.insert_channel(Id(ProcessKind::Local, 1)).unwrap();
    let mut b = r.insert_channel(Id(ProcessKind::Local, 2)).unwrap();
    assert_eq!(r.remove_channel(a.index), Some(Id(ProcessKind::Local, 1)));
    assert!(r.insert_channel(Id(ProcessKind::Local, 1)).is_some());
    let mut tx = r.get_channel(Id(ProcessKind::Local, 2)).unwrap();
    tx.try_send(ChannelData::Shutdown).unwrap();
    assert_eq!(b.rx.try_recv().unwrap(), ChannelData::Shutdown);
}
