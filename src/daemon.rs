//! The daemon's socket and its descriptor-handover protocol.
//!
//! An opener connects to the daemon's UNIX socket, sends `Open`, and on each
//! `Ack` hands over the next of its child's stdin, stdout and stderr. The
//! daemon adopts the three descriptors as a new transport and answers a last
//! `Ack`. Any failure is answered with `Error(message)` and ends the connection.
//! Both sides are state machines here; the I/O around them is the caller's.
use vstd::prelude::*;

verus! {

/// What the opener asks of the daemon.
#[derive(Debug, Clone, PartialEq, Eq)]
pub struct Open {
    pub pid: u32,
    pub command: Vec<u8>,
    pub args: Vec<Vec<u8>>,
}

/// A request on the daemon's socket.
#[derive(Debug, Clone, PartialEq, Eq)]
pub enum Request {
    Open(Open),
}

/// A reply on the daemon's socket.
#[derive(Debug, Clone, PartialEq, Eq)]
pub enum Response {
    /// The step succeeded.
    Ack,
    /// The step failed, with this message.
    Error(String),
}

/// How probing an existing socket file by connecting to it went.
#[derive(Debug, Clone, Copy, PartialEq, Eq, Structural)]
pub enum Probe {
    /// Someone accepted: another daemon is live.
    Connected,
    /// Connection refused: the file is stale.
    Refused,
    /// Any other failure.
    Failed,
}

/// Why the daemon cannot take its socket path.
#[derive(Debug, Clone, Copy, PartialEq, Eq, Structural)]
pub enum SetupError {
    /// The path exists and is not a socket.
    NotASocket,
    /// Another server process is running on the socket.
    AnotherServerRunning,
    /// Connecting to the existing socket failed unexpectedly.
    ProbeFailed,
}

/// What to do about the socket path before binding.
#[derive(Debug, Clone, Copy, PartialEq, Eq, Structural)]
pub enum SocketPlan {
    /// Nothing is there: bind.
    Bind,
    /// A socket file is there: connect to it to see whether it is live.
    Probe,
}

/// The first step on the socket path: bind where nothing exists, refuse a
/// file that is not a socket, probe a socket.
pub fn plan_socket(exists: bool, is_socket: bool) -> (r: Result<SocketPlan, SetupError>)
    ensures
        !exists ==> r == Ok::<SocketPlan, SetupError>(SocketPlan::Bind),
        exists && !is_socket ==> r == Err::<SocketPlan, SetupError>(SetupError::NotASocket),
        exists && is_socket ==> r == Ok::<SocketPlan, SetupError>(SocketPlan::Probe),
{
    if !exists {
        Ok(SocketPlan::Bind)
    } else if !is_socket {
        Err(SetupError::NotASocket)
    } else {
        Ok(SocketPlan::Probe)
    }
}

/// The step after probing an existing socket: `Ok` means the file is stale,
/// to be removed before binding.
pub fn after_probe(probe: Probe) -> (r: Result<(), SetupError>)
    ensures
        probe == Probe::Refused ==> r == Ok::<(), SetupError>(()),
        probe == Probe::Connected ==> r == Err::<(), SetupError>(SetupError::AnotherServerRunning),
        probe == Probe::Failed ==> r == Err::<(), SetupError>(SetupError::ProbeFailed),
{
    match probe {
        Probe::Refused => Ok(()),
        Probe::Connected => Err(SetupError::AnotherServerRunning),
        Probe::Failed => Err(SetupError::ProbeFailed),
    }
}

/// Where the daemon stands on one connection.
#[derive(Debug, Clone, PartialEq, Eq)]
pub enum ServerState {
    /// Waiting for a request.
    AwaitRequest,
    /// `Open` accepted; the descriptors received so far, in order.
    AwaitFd(Vec<i32>),
    /// All three descriptors received; the transport is being set up.
    Connecting,
    /// The connection is over.
    Closed,
}

/// What happened on the connection, as the caller saw it.
pub enum ServerEvent {
    Request(Request),
    /// A descriptor arrived.
    Fd(i32),
    /// The adopted descriptors are connected as a transport.
    Connected,
    /// A step failed, with this message.
    Failed(String),
    /// The opener closed the connection.
    EndOfStream,
}

/// What the caller does next, in order.
pub enum ServerAction {
    Respond(Response),
    /// Adopt these descriptors as stdin, stdout and stderr of a transport.
    Adopt(i32, i32, i32),
    /// Close the connection.
    Close,
}

/// The daemon's side of the handover: the next state and the actions for
/// one event.
pub fn server_step(state: ServerState, event: ServerEvent) -> (r: (ServerState, Vec<ServerAction>))
    ensures
        match (state, event) {
            (ServerState::AwaitRequest, ServerEvent::Request(Request::Open(_))) => {
                &&& r.0 matches ServerState::AwaitFd(fds)
                &&& fds@.len() == 0
                &&& r.1@ == seq![ServerAction::Respond(Response::Ack)]
            },
            (ServerState::AwaitFd(fds), ServerEvent::Fd(fd)) => if fds@.len() < 2 {
                &&& r.0 matches ServerState::AwaitFd(next)
                &&& next@ == fds@.push(fd)
                &&& r.1@ == seq![ServerAction::Respond(Response::Ack)]
            } else if fds@.len() == 2 {
                &&& r.0 == ServerState::Connecting
                &&& r.1@ == seq![
                    ServerAction::Respond(Response::Ack),
                    ServerAction::Adopt(fds@[0], fds@[1], fd),
                ]
            } else {
                &&& r.0 == ServerState::Closed
                &&& r.1@.len() == 2
                &&& r.1@[0] matches ServerAction::Respond(Response::Error(_))
                &&& r.1@[1] == ServerAction::Close
            },
            (ServerState::Connecting, ServerEvent::Connected) => {
                &&& r.0 == ServerState::AwaitRequest
                &&& r.1@ == seq![ServerAction::Respond(Response::Ack)]
            },
            (ServerState::AwaitRequest, ServerEvent::EndOfStream) => {
                &&& r.0 == ServerState::Closed
                &&& r.1@ == seq![ServerAction::Close]
            },
            (ServerState::Closed, _) => {
                &&& r.0 == ServerState::Closed
                &&& r.1@.len() == 0
            },
            (_, ServerEvent::Failed(msg)) => {
                &&& r.0 == ServerState::Closed
                &&& r.1@ == seq![ServerAction::Respond(Response::Error(msg)), ServerAction::Close]
            },
            _ => {
                &&& r.0 == ServerState::Closed
                &&& r.1@.len() == 2
                &&& r.1@[0] matches ServerAction::Respond(Response::Error(_))
                &&& r.1@[1] == ServerAction::Close
            },
        },
{
    match (state, event) {
        (ServerState::AwaitRequest, ServerEvent::Request(Request::Open(_))) => {
            (ServerState::AwaitFd(Vec::new()), vec![ServerAction::Respond(Response::Ack)])
        },
        (ServerState::AwaitFd(fds), ServerEvent::Fd(fd)) => {
            if fds.len() < 2 {
                let mut next = fds;
                next.push(fd);
                (ServerState::AwaitFd(next), vec![ServerAction::Respond(Response::Ack)])
            } else if fds.len() == 2 {
                let actions = vec![
                    ServerAction::Respond(Response::Ack),
                    ServerAction::Adopt(fds[0], fds[1], fd),
                ];
                (ServerState::Connecting, actions)
            } else {
                refuse()
            }
        },
        (ServerState::Connecting, ServerEvent::Connected) => {
            (ServerState::AwaitRequest, vec![ServerAction::Respond(Response::Ack)])
        },
        (ServerState::AwaitRequest, ServerEvent::EndOfStream) => {
            (ServerState::Closed, vec![ServerAction::Close])
        },
        (ServerState::Closed, _) => (ServerState::Closed, Vec::new()),
        (_, ServerEvent::Failed(msg)) => {
            (
                ServerState::Closed,
                vec![ServerAction::Respond(Response::Error(msg)), ServerAction::Close],
            )
        },
        _ => refuse(),
    }
}

/// Ends the connection over an event that does not fit the protocol.
fn refuse() -> (r: (ServerState, Vec<ServerAction>))
    ensures
        r.0 == ServerState::Closed,
        r.1@.len() == 2,
        r.1@[0] matches ServerAction::Respond(Response::Error(_)),
        r.1@[1] == ServerAction::Close,
{
    let msg = "unexpected message in this state".to_owned();
    (ServerState::Closed, vec![ServerAction::Respond(Response::Error(msg)), ServerAction::Close])
}

/// Why the opener's handover failed.
#[derive(Debug, Clone, PartialEq, Eq)]
pub enum OpenError {
    /// The daemon answered `Error` with this message.
    Server(String),
    /// The daemon closed the connection early.
    UnexpectedEof,
}

/// What the opener does next.
#[derive(Debug, Clone, PartialEq, Eq)]
pub enum OpenerAction {
    /// Hand over descriptor `k` of the child: 0 stdin, 1 stdout, 2 stderr.
    SendFd(u8),
    /// Wait for the next response.
    Wait,
    /// The handover is complete.
    Done,
    Fail(OpenError),
}

/// The opener's side of the handover, after it sent `Open`: counts the `Ack`s
/// received so far.
pub struct Opener {
    oks: u8,
    failed: bool,
}

impl Opener {
    pub closed spec fn oks(&self) -> nat {
        self.oks as nat
    }

    pub closed spec fn failed(&self) -> bool {
        self.failed
    }

    /// The opener right after sending `Open`.
    pub fn new() -> (r: Opener)
        ensures
            r.oks() == 0,
            !r.failed(),
    {
        Opener { oks: 0, failed: false }
    }

    /// The action for the next response (`None`: the stream ended).
    /// The descriptors go out in order, each after an `Ack`; after the third
    /// one's `Ack` comes the terminal `Ack`.
    pub fn on_response(&mut self, resp: Option<Response>) -> (r: OpenerAction)
        ensures
            old(self).failed() || old(self).oks() >= 5 ==> {
                &&& r == OpenerAction::Fail(OpenError::UnexpectedEof)
                &&& final(self).failed()
            },
            !old(self).failed() && old(self).oks() < 5 ==> match resp {
                None => r == OpenerAction::Fail(OpenError::UnexpectedEof) && final(self).failed(),
                Some(Response::Error(msg)) => r == OpenerAction::Fail(OpenError::Server(msg))
                    && final(self).failed(),
                Some(Response::Ack) => {
                    &&& final(self).oks() == old(self).oks() + 1
                    &&& !final(self).failed()
                    &&& r == if old(self).oks() < 3 {
                        OpenerAction::SendFd(old(self).oks() as u8)
                    } else if old(self).oks() == 3 {
                        OpenerAction::Wait
                    } else {
                        OpenerAction::Done
                    }
                },
            },
    {
        if self.failed || self.oks >= 5 {
            self.failed = true;
            return OpenerAction::Fail(OpenError::UnexpectedEof);
        }
        match resp {
            None => {
                self.failed = true;
                OpenerAction::Fail(OpenError::UnexpectedEof)
            },
            Some(Response::Error(msg)) => {
                self.failed = true;
                OpenerAction::Fail(OpenError::Server(msg))
            },
            Some(Response::Ack) => {
                let k = self.oks;
                self.oks = self.oks + 1;
                if k < 3 {
                    OpenerAction::SendFd(k)
                } else if k == 3 {
                    OpenerAction::Wait
                } else {
                    OpenerAction::Done
                }
            },
        }
    }
}

} // verus!
