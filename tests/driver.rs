use rsrs::endpoint::{
    login_arg0, login_shell, plan_launch, sink_action, source_frame, spawn_failed_frame,
    SinkAction, SPAWN_FAILED_CODE,
};
use rsrs::protocol::{
    ChannelCommand, ChannelData, ExitStatus, Id, ProcessExitStatus, ProcessKind, RemoteCommand,
    SpawnCommand,
};
use rsrs::session::{
    allocate_pty, decimal_digits, forward_env_vars, pty_mode, sock_file_name, spawn_command,
    PtyMode,
};

#[test]
fn pty_flags_select_mode() {
    assert_eq!(pty_mode(true, 0), PtyMode::Disable);
    assert_eq!(pty_mode(true, 2), PtyMode::Disable);
    assert_eq!(pty_mode(false, 1), PtyMode::Enable);
    assert_eq!(pty_mode(false, 0), PtyMode::Auto);
}

#[test]
fn pty_policy() {
    let shell = Some(SpawnCommand::LoginShell);
    let prog = Some(SpawnCommand::Program(b"ls".to_vec(), vec![]));
    assert!(allocate_pty(PtyMode::Auto, &shell, 0, true));
    assert!(!allocate_pty(PtyMode::Auto, &prog, 0, true));
    assert!(!allocate_pty(PtyMode::Auto, &None, 0, true));
    assert!(allocate_pty(PtyMode::Enable, &prog, 1, true));
    assert!(!allocate_pty(PtyMode::Enable, &prog, 1, false));
    assert!(allocate_pty(PtyMode::Enable, &prog, 2, false));
    assert!(!allocate_pty(PtyMode::Disable, &shell, 0, true));
}

#[test]
fn command_line_to_spawn() {
    assert_eq!(spawn_command(true, &vec![b"ls".to_vec()]), None);
    assert_eq!(spawn_command(false, &vec![]), Some(SpawnCommand::LoginShell));
    assert_eq!(
        spawn_command(false, &vec![b"sh".to_vec(), b"-c".to_vec(), b"exit 0".to_vec()]),
        Some(SpawnCommand::Program(b"sh".to_vec(), vec![b"-c".to_vec(), b"exit 0".to_vec()]))
    );
}

#[test]
fn forwards_only_set_variables_in_order() {
    let vars = vec![
        (b"RUST_BACKTRACE".to_vec(), None),
        (b"RUST_LOG".to_vec(), Some(b"debug".to_vec())),
        (b"TERM".to_vec(), Some(b"xterm-256color".to_vec())),
    ];
    assert_eq!(
        forward_env_vars(vars),
        vec![
            (b"RUST_LOG".to_vec(), b"debug".to_vec()),
            (b"TERM".to_vec(), b"xterm-256color".to_vec())
        ]
    );
    assert!(forward_env_vars(vec![]).is_empty());
}

#[test]
fn socket_file_names() {
    assert_eq!(sock_file_name(None), b"rsrs.root.sock".to_vec());
    assert_eq!(sock_file_name(Some(4242)), b"rsrs.4242.sock".to_vec());
    assert_eq!(sock_file_name(Some(0)), b"rsrs.0.sock".to_vec());
    assert_eq!(decimal_digits(4294967295), b"4294967295".to_vec());
}

#[test]
fn login_shell_argv0() {
    assert_eq!(login_arg0(&b"/bin/bash".to_vec()), b"-bash".to_vec());
    assert_eq!(login_arg0(&b"zsh".to_vec()), b"-zsh".to_vec());
    assert_eq!(login_arg0(&b"/usr/local/bin/fish".to_vec()), b"-fish".to_vec());
}

#[test]
fn login_shell_falls_back_to_env() {
    assert_eq!(
        login_shell(Some(b"/bin/zsh".to_vec()), Some(b"/bin/sh".to_vec())),
        Some(b"/bin/zsh".to_vec())
    );
    assert_eq!(login_shell(None, Some(b"/bin/sh".to_vec())), Some(b"/bin/sh".to_vec()));
    assert_eq!(login_shell(None, None), None);
}

#[test]
fn launch_plans() {
    let l = plan_launch(SpawnCommand::LoginShell, Some(b"/bin/bash".to_vec())).unwrap();
    assert_eq!(l.program, b"/bin/bash".to_vec());
    assert!(l.args.is_empty());
    assert_eq!(l.arg0, Some(b"-bash".to_vec()));
    assert!(plan_launch(SpawnCommand::LoginShell, None).is_none());
    let l = plan_launch(SpawnCommand::Program(b"/bin/cat".to_vec(), vec![]), None).unwrap();
    assert_eq!(l.program, b"/bin/cat".to_vec());
    assert_eq!(l.arg0, None);
}

#[test]
fn source_frames() {
    let id = Id(ProcessKind::Remote, 1);
    assert_eq!(
        source_frame(id, b"hello\n".to_vec()),
        RemoteCommand::Channel(ChannelCommand { id, data: ChannelData::Output(b"hello\n".to_vec()) })
    );
    assert_eq!(
        source_frame(id, vec![]),
        RemoteCommand::Channel(ChannelCommand { id, data: ChannelData::Shutdown })
    );
    assert_eq!(
        spawn_failed_frame(id),
        RemoteCommand::ProcessExit(ProcessExitStatus { id, status: ExitStatus::Code(SPAWN_FAILED_CODE) })
    );
}

#[test]
fn sink_actions() {
    assert!(matches!(
        sink_action(ChannelData::Output(b"x".to_vec()), false),
        SinkAction::Write(b) if b == b"x".to_vec()
    ));
    assert!(matches!(sink_action(ChannelData::WindowSizeChange(132, 50), true), SinkAction::Resize(132, 50)));
    assert!(matches!(sink_action(ChannelData::WindowSizeChange(132, 50), false), SinkAction::Ignore));
    assert!(matches!(sink_action(ChannelData::Shutdown, true), SinkAction::Close));
}
