//! Decisions of a process endpoint: what to launch for a `Spawn`, what the
//! source turns read bytes into, and what the sink does with each piece of
//! channel data.
use crate::protocol::{
    ChannelCommand, ChannelData, ExitStatus, Id, ProcessExitStatus, RemoteCommand, SpawnCommand,
};
use vstd::prelude::*;

verus! {

/// Exit code reported when the process of a `Spawn` could not be started.
pub const SPAWN_FAILED_CODE: i32 = 127;

/// The part of `p` after its last `/` (all of `p` if it has none).
pub open spec fn basename(p: Seq<u8>) -> Seq<u8>
    decreases p.len(),
{
    if p.len() == 0 {
        p
    } else if p.last() == 47u8 {
        seq![]
    } else {
        basename(p.drop_last()).push(p.last())
    }
}

proof fn lemma_basename_from(p: Seq<u8>, i: int)
    requires
        0 <= i <= p.len(),
        i == 0 || p[i - 1] == 47u8,
        forall|j: int| i <= j < p.len() ==> p[j] != 47u8,
    ensures
        basename(p) == p.subrange(i, p.len() as int),
    decreases p.len(),
{
    if p.len() == 0 {
        assert(p.subrange(i, 0) =~= p);
    } else if i == p.len() {
        assert(p.subrange(i, p.len() as int) =~= seq![]);
    } else {
        let q = p.drop_last();
        assert forall|j: int| i <= j < q.len() implies q[j] != 47u8 by {
            assert(q[j] == p[j]);
        }
        if i > 0 {
            assert(q[i - 1] == p[i - 1]);
        }
        lemma_basename_from(q, i);
        assert(p.subrange(i, p.len() as int) =~= q.subrange(i, q.len() as int).push(p.last()));
    }
}

/// `argv[0]` that asks `shell` to behave as a login shell: `-` and the
/// shell's file name.
pub fn login_arg0(shell: &Vec<u8>) -> (r: Vec<u8>)
    ensures
        r@ == seq![45u8] + basename(shell@),
{
    let mut i: usize = shell.len();
    while i > 0 && shell[i - 1] != 47u8
        invariant
            i <= shell@.len(),
            forall|j: int| i <= j < shell@.len() ==> shell@[j] != 47u8,
        decreases i,
    {
        i = i - 1;
    }
    proof {
        lemma_basename_from(shell@, i as int);
    }
    let mut r: Vec<u8> = vec![45u8];
    let mut k: usize = i;
    while k < shell.len()
        invariant
            i <= k <= shell@.len(),
            r@ == seq![45u8] + shell@.subrange(i as int, k as int),
        decreases shell@.len() - k,
    {
        r.push(shell[k]);
        k = k + 1;
        assert(r@ =~= seq![45u8] + shell@.subrange(i as int, k as int));
    }
    r
}

/// The user's login shell: the one of the password database, else the one
/// `SHELL` names.
pub fn login_shell(from_passwd: Option<Vec<u8>>, from_env: Option<Vec<u8>>) -> (r: Option<Vec<u8>>)
    ensures
        r == if from_passwd.is_some() {
            from_passwd
        } else {
            from_env
        },
{
    match from_passwd {
        Some(s) => Some(s),
        None => from_env,
    }
}

/// What to execute for a `Spawn`.
pub struct Launch {
    pub program: Vec<u8>,
    pub args: Vec<Vec<u8>>,
    /// `argv[0]`, where it differs from the program.
    pub arg0: Option<Vec<u8>>,
}

/// The launch for `command`; `shell` is the user's login shell, if known.
/// `None` when a login shell is asked for and none is known.
pub fn plan_launch(command: SpawnCommand, shell: Option<Vec<u8>>) -> (r: Option<Launch>)
    ensures
        match command {
            SpawnCommand::LoginShell => match shell {
                None => r.is_none(),
                Some(sh) => r matches Some(l) && (l.program@ == sh@ && l.args@.len() == 0
                    && (l.arg0 matches Some(a) && a@ == seq![45u8] + basename(sh@))),
            },
            SpawnCommand::Program(p, a) => r matches Some(l) && (l.program == p && l.args == a
                && l.arg0.is_none()),
        },
{
    match command {
        SpawnCommand::LoginShell => match shell {
            None => None,
            Some(sh) => {
                let arg0 = login_arg0(&sh);
                Some(Launch { program: sh, args: Vec::new(), arg0: Some(arg0) })
            },
        },
        SpawnCommand::Program(p, a) => Some(Launch { program: p, args: a, arg0: None }),
    }
}

/// The frame reporting that the process of channel `id` ended with `status`.
pub fn exit_frame(id: Id, status: ExitStatus) -> (r: RemoteCommand)
    ensures
        r == RemoteCommand::ProcessExit(ProcessExitStatus { id, status }),
{
    RemoteCommand::ProcessExit(ProcessExitStatus { id, status })
}

/// The frame reporting that the process of channel `id` could not be started.
pub fn spawn_failed_frame(id: Id) -> (r: RemoteCommand)
    ensures
        r == RemoteCommand::ProcessExit(
            ProcessExitStatus { id, status: ExitStatus::Code(SPAWN_FAILED_CODE) },
        ),
{
    exit_frame(id, ExitStatus::Code(SPAWN_FAILED_CODE))
}

/// The frame a source sends for a read of `chunk` on channel `id`: the bytes
/// as output, or, for an empty read (end of stream), `Shutdown`.
pub fn source_frame(id: Id, chunk: Vec<u8>) -> (r: RemoteCommand)
    ensures
        chunk@.len() == 0 ==> r == RemoteCommand::Channel(
            ChannelCommand { id, data: ChannelData::Shutdown },
        ),
        chunk@.len() > 0 ==> r == RemoteCommand::Channel(
            ChannelCommand { id, data: ChannelData::Output(chunk) },
        ),
{
    if chunk.len() == 0 {
        RemoteCommand::Channel(ChannelCommand { id, data: ChannelData::Shutdown })
    } else {
        RemoteCommand::Channel(ChannelCommand { id, data: ChannelData::Output(chunk) })
    }
}

/// What a sink does with one piece of channel data.
pub enum SinkAction {
    /// Write all the bytes to the stream and flush it.
    Write(Vec<u8>),
    /// Set the window size of the pseudo-terminal.
    Resize(u16, u16),
    /// Shut the stream down and stop.
    Close,
    /// Nothing: a window size for a stream without a terminal.
    Ignore,
}

pub fn sink_action(data: ChannelData, has_pty: bool) -> (r: SinkAction)
    ensures
        match data {
            ChannelData::Output(b) => r == SinkAction::Write(b),
            ChannelData::WindowSizeChange(w, h) => r == if has_pty {
                SinkAction::Resize(w, h)
            } else {
                SinkAction::Ignore
            },
            ChannelData::Shutdown => r == SinkAction::Close,
        },
{
    match data {
        ChannelData::Output(b) => SinkAction::Write(b),
        ChannelData::WindowSizeChange(w, h) => if has_pty {
            SinkAction::Resize(w, h)
        } else {
            SinkAction::Ignore
        },
        ChannelData::Shutdown => SinkAction::Close,
    }
}

} // verus!
