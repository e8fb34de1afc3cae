use rsrs::daemon::{
    after_probe, plan_socket, Open, OpenError, Opener, OpenerAction, Probe, Request, Response,
    ServerAction, ServerEvent, ServerState, SetupError, SocketPlan,
};

fn open_request() -> Request {
    Request::Open(Open { pid: 1234, command: b"/bin/cat".to_vec(), args: vec![] })
}

fn is_ack(a: &ServerAction) -> bool {
    matches!(a, ServerAction::Respond(Response::Ack))
}

#[test]
fn stale_socket_is_reclaimed() {
    assert_eq!(plan_socket(false, false), Ok(SocketPlan::Bind));
    assert_eq!(plan_socket(true, false), Err(SetupError::NotASocket));
    assert_eq!(plan_socket(true, true), Ok(SocketPlan::Probe));
    assert_eq!(after_probe(Probe::Refused), Ok(()));
    assert_eq!(after_probe(Probe::Connected), Err(SetupError::AnotherServerRunning));
    assert_eq!(after_probe(Probe::Failed), Err(SetupError::ProbeFailed));
}

#[test]
fn server_takes_three_fds_in_order() {
    let (s, a) = rsrs::daemon::server_step(ServerState::AwaitRequest, ServerEvent::Request(open_request()));
    assert_eq!(a.len(), 1);
    assert!(is_ack(&a[0]));
    let (s, a) = rsrs::daemon::server_step(s, ServerEvent::Fd(10));
    assert!(is_ack(&a[0]));
    let (s, a) = rsrs::daemon::server_step(s, ServerEvent::Fd(11));
    assert!(is_ack(&a[0]));
    assert_eq!(s, ServerState::AwaitFd(vec![10, 11]));
    let (s, a) = rsrs::daemon::server_step(s, ServerEvent::Fd(12));
    assert_eq!(s, ServerState::Connecting);
    assert_eq!(a.len(), 2);
    assert!(is_ack(&a[0]));
    assert!(matches!(a[1], ServerAction::Adopt(10, 11, 12)));
    let (s, a) = rsrs::daemon::server_step(s, ServerEvent::Connected);
    assert_eq!(s, ServerState::AwaitRequest);
    assert!(is_ack(&a[0]));
    let (s, a) = rsrs::daemon::server_step(s, ServerEvent::EndOfStream);
    assert_eq!(s, ServerState::Closed);
    assert!(matches!(a[0], ServerAction::Close));
}

#[test]
fn server_reports_failure_and_closes() {
    let (s, _) = rsrs::daemon::server_step(ServerState::AwaitRequest, ServerEvent::Request(open_request()));
    let (s, a) = rsrs::daemon::server_step(s, ServerEvent::Failed("failed to receive stdin fd".to_string()));
    assert_eq!(s, ServerState::Closed);
    assert!(matches!(&a[0], ServerAction::Respond(Response::Error(m)) if m == "failed to receive stdin fd"));
    assert!(matches!(a[1], ServerAction::Close));
}

#[test]
fn server_refuses_out_of_order_fd() {
    let (s, a) = rsrs::daemon::server_step(ServerState::AwaitRequest, ServerEvent::Fd(3));
    assert_eq!(s, ServerState::Closed);
    assert!(matches!(a[0], ServerAction::Respond(Response::Error(_))));
}

#[test]
fn opener_sends_fds_after_each_ack() {
    let mut o = Opener::new();
    assert_eq!(o.on_response(Some(Response::Ack)), OpenerAction::SendFd(0));
    assert_eq!(o.on_response(Some(Response::Ack)), OpenerAction::SendFd(1));
    assert_eq!(o.on_response(Some(Response::Ack)), OpenerAction::SendFd(2));
    assert_eq!(o.on_response(Some(Response::Ack)), OpenerAction::Wait);
    assert_eq!(o.on_response(Some(Response::Ack)), OpenerAction::Done);
}

#[test]
fn opener_fails_on_error_or_eof() {
    let mut o = Opener::new();
    assert_eq!(
        o.on_response(Some(Response::Error("boom".to_string()))),
        OpenerAction::Fail(OpenError::Server("boom".to_string()))
    );
    let mut o = Opener::new();
    o.on_response(Some(Response::Ack));
    assert_eq!(o.on_response(None), OpenerAction::Fail(OpenError::UnexpectedEof));
}

#[test]
fn daemon_fd_handover_end_to_end() {
    // The opener's fds 20, 21, 22 reach the daemon in order, with an `Ack`
    // after the request, after each fd, and at the end.
    let opener_fds = [20, 21, 22];
    let mut opener = Opener::new();
    let (mut state, mut replies) =
        rsrs::daemon::server_step(ServerState::AwaitRequest, ServerEvent::Request(open_request()));
    let mut adopted = None;
    let mut acks = 0;
    let mut done = false;
    while !done {
        let mut next_event = None;
        for reply in replies {
            match reply {
                ServerAction::Respond(r) => {
                    if matches!(r, Response::Ack) {
                        acks += 1;
                    }
                    match opener.on_response(Some(r)) {
                        OpenerAction::SendFd(k) => next_event = Some(ServerEvent::Fd(opener_fds[k as usize])),
                        OpenerAction::Wait => {}
                        OpenerAction::Done => done = true,
                        OpenerAction::Fail(e) => panic!("handover failed: {:?}", e),
                    }
                }
                ServerAction::Adopt(i, o, e) => {
                    adopted = Some((i, o, e));
                    next_event = Some(ServerEvent::Connected);
                }
                ServerAction::Close => panic!("closed early"),
            }
        }
        if done {
            break;
        }
        let (s, r) = rsrs::daemon::server_step(state, next_event.expect("an event"));
        state = s;
        replies = r;
    }
    assert_eq!(adopted, Some((20, 21, 22)));
    assert_eq!(acks, 5);
    assert_eq!(state, ServerState::AwaitRequest);
}
