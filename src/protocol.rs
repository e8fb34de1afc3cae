//! Messages exchanged between the two routers of a session.
use vstd::prelude::*;

verus! {

/// The marker a leaf daemon writes to its stdout before any protocol bytes:
/// `"\0RSRS\0magic\0number\0"`.
pub open spec fn magic_marker() -> Seq<u8> {
    seq![0u8, 82, 83, 82, 83, 0, 109, 97, 103, 105, 99, 0, 110, 117, 109, 98, 101, 114, 0]
}

/// The marker of `magic_marker`, as bytes.
pub fn magic() -> (r: Vec<u8>)
    ensures
        r@ == magic_marker(),
{
    let r: Vec<u8> = vec![0u8, 82, 83, 82, 83, 0, 109, 97, 103, 105, 99, 0, 110, 117, 109, 98, 101, 114, 0];
    assert(r@ =~= magic_marker());
    r
}

/// Which side of the session minted an id.
#[derive(Debug, Clone, Copy, PartialEq, Eq, Hash, Structural)]
pub enum ProcessKind {
    Local,
    Remote,
}

/// A channel id: the minting side and a per-router sequence number.
#[derive(Debug, Clone, Copy, PartialEq, Eq, Hash, Structural)]
pub struct Id(pub ProcessKind, pub u64);

impl Id {
    pub fn new(kind: ProcessKind, id: u64) -> (r: Id)
        ensures
            r == Id(kind, id),
    {
        Id(kind, id)
    }

    /// A single integer that tells ids apart: the kind in the high half.
    pub open spec fn spec_key(self) -> u128 {
        match self.0 {
            ProcessKind::Local => self.1 as u128,
            ProcessKind::Remote => (self.1 as u128 + 0x1_0000_0000_0000_0000) as u128,
        }
    }

    pub fn key(&self) -> (r: u128)
        ensures
            r == self.spec_key(),
    {
        match self.0 {
            ProcessKind::Local => self.1 as u128,
            ProcessKind::Remote => self.1 as u128 + 0x1_0000_0000_0000_0000,
        }
    }
}

/// Distinct ids have distinct keys.
pub proof fn lemma_key_injective(a: Id, b: Id)
    ensures
        a.spec_key() == b.spec_key() <==> a == b,
{
}

/// Environment pairs to apply on the peer.
#[derive(Debug, Clone, PartialEq, Eq)]
pub struct SetEnv {
    pub env_vars: Vec<(Vec<u8>, Vec<u8>)>,
}

/// What program a `Spawn` starts.
#[derive(Debug, Clone, PartialEq, Eq)]
pub enum SpawnCommand {
    LoginShell,
    Program(Vec<u8>, Vec<Vec<u8>>),
}

/// Terminal size requested for a pseudo-terminal.
#[derive(Debug, Clone, Copy, PartialEq, Eq, Structural)]
pub struct PtyParam {
    pub width: u16,
    pub height: u16,
}

/// A request to start a process and open the channel `id` for it.
#[derive(Debug, Clone, PartialEq, Eq)]
pub struct Spawn {
    pub id: Id,
    pub command: SpawnCommand,
    pub env_vars: Vec<(Vec<u8>, Vec<u8>)>,
    pub pty: Option<PtyParam>,
}

/// What travels on a channel.
#[derive(Debug, Clone, PartialEq, Eq)]
pub enum ChannelData {
    Output(Vec<u8>),
    WindowSizeChange(u16, u16),
    Shutdown,
}

/// Channel data addressed to one id.
#[derive(Debug, Clone, PartialEq, Eq)]
pub struct ChannelCommand {
    pub id: Id,
    pub data: ChannelData,
}

/// How a process ended.
#[derive(Debug, Clone, Copy, PartialEq, Eq, Structural)]
pub enum ExitStatus {
    Code(i32),
    Signal(i32),
}

/// The end of the process behind channel `id`.
#[derive(Debug, Clone, Copy, PartialEq, Eq, Structural)]
pub struct ProcessExitStatus {
    pub id: Id,
    pub status: ExitStatus,
}

/// A frame on the transport between two routers.
#[derive(Debug, Clone, PartialEq, Eq)]
pub enum RemoteCommand {
    SetEnv(SetEnv),
    Spawn(Spawn),
    Channel(ChannelCommand),
    ProcessExit(ProcessExitStatus),
    Exit,
}

impl ExitStatus {
    /// Maps what waiting on a child reported: its exit code if it exited,
    /// else the signal that ended it.
    pub fn from_wait(code: Option<i32>, signal: Option<i32>) -> (r: ExitStatus)
        requires
            code.is_some() || signal.is_some(),
        ensures
            code.is_some() ==> r == ExitStatus::Code(code.unwrap()),
            code.is_none() ==> r == ExitStatus::Signal(signal.unwrap()),
    {
        match code {
            Some(c) => ExitStatus::Code(c),
            None => ExitStatus::Signal(signal.unwrap()),
        }
    }

    /// The exit code a session driver reports for this status: the code
    /// itself, or 128 plus the signal number.
    pub open spec fn spec_exit_code(self) -> int {
        match self {
            ExitStatus::Code(c) => c as int,
            ExitStatus::Signal(s) => 128 + s,
        }
    }

    pub fn exit_code(&self) -> (r: i32)
        requires
            self.spec_exit_code() <= i32::MAX,
        ensures
            r == self.spec_exit_code(),
    {
        match *self {
            ExitStatus::Code(c) => c,
            ExitStatus::Signal(s) => 128 + s,
        }
    }
}

} // verus!
