//! Decisions of the session driver: what to spawn on the peer, whether to
//! ask for a pseudo-terminal, which variables to forward, and where the
//! daemon's socket lives.
use crate::protocol::SpawnCommand;
use vstd::prelude::*;

verus! {

/// How the `-T` / `-t` flags ask for a pseudo-terminal.
#[derive(Debug, Clone, Copy, PartialEq, Eq, Structural)]
pub enum PtyMode {
    Auto,
    Disable,
    Enable,
}

/// The mode that `-T` (`disable`) and `force_count` times `-t` select;
/// `-T` wins.
pub fn pty_mode(disable: bool, force_count: u32) -> (r: PtyMode)
    ensures
        r == if disable {
            PtyMode::Disable
        } else if force_count > 0 {
            PtyMode::Enable
        } else {
            PtyMode::Auto
        },
{
    if disable {
        PtyMode::Disable
    } else if force_count > 0 {
        PtyMode::Enable
    } else {
        PtyMode::Auto
    }
}

/// What to run on the peer: nothing with `-N`, the login shell when no
/// command is given, else the command and its arguments.
pub fn spawn_command(no_remote_command: bool, command: &Vec<Vec<u8>>) -> (r: Option<SpawnCommand>)
    ensures
        no_remote_command ==> r.is_none(),
        !no_remote_command && command@.len() == 0 ==> r == Some(SpawnCommand::LoginShell),
        !no_remote_command && command@.len() > 0 ==> (r matches Some(SpawnCommand::Program(p, a))
            && p@ == command@[0]@ && a@.len() == command@.len() - 1 && forall|i: int|
            0 <= i < a@.len() ==> #[trigger] a@[i]@ == command@[i + 1]@),
{
    if no_remote_command {
        None
    } else if command.len() == 0 {
        Some(SpawnCommand::LoginShell)
    } else {
        let program = clone_bytes(&command[0]);
        let mut args: Vec<Vec<u8>> = Vec::new();
        let mut i: usize = 1;
        while i < command.len()
            invariant
                1 <= i <= command@.len(),
                args@.len() == i - 1,
                forall|j: int| 0 <= j < args@.len() ==> #[trigger] args@[j]@ == command@[j + 1]@,
            decreases command@.len() - i,
        {
            args.push(clone_bytes(&command[i]));
            i = i + 1;
        }
        Some(SpawnCommand::Program(program, args))
    }
}

/// A copy of `b`.
pub fn clone_bytes(b: &Vec<u8>) -> (r: Vec<u8>)
    ensures
        r@ == b@,
{
    let mut r: Vec<u8> = Vec::new();
    r.extend_from_slice(b.as_slice());
    assert(r@ =~= b@);
    r
}

/// Whether a pseudo-terminal is asked for: never with `-T`, always with
/// `-t`, otherwise for the login shell only; and, unless `-t` was given
/// twice, only when the local stdin is a terminal.
pub open spec fn spec_allocate_pty(
    mode: PtyMode,
    command: Option<SpawnCommand>,
    force_count: u32,
    has_local_tty: bool,
) -> bool {
    let wanted = match mode {
        PtyMode::Auto => command == Some(SpawnCommand::LoginShell),
        PtyMode::Enable => true,
        PtyMode::Disable => false,
    };
    wanted && (force_count >= 2 || has_local_tty)
}

pub fn allocate_pty(
    mode: PtyMode,
    command: &Option<SpawnCommand>,
    force_count: u32,
    has_local_tty: bool,
) -> (r: bool)
    ensures
        r == spec_allocate_pty(mode, *command, force_count, has_local_tty),
{
    let wanted = match mode {
        PtyMode::Auto => match command {
            Some(SpawnCommand::LoginShell) => true,
            _ => false,
        },
        PtyMode::Enable => true,
        PtyMode::Disable => false,
    };
    wanted && (force_count >= 2 || has_local_tty)
}

/// The pairs whose value is present, in the order given.
pub open spec fn present_pairs(vars: Seq<(Vec<u8>, Option<Vec<u8>>)>) -> Seq<(Seq<u8>, Seq<u8>)>
    decreases vars.len(),
{
    if vars.len() == 0 {
        seq![]
    } else {
        let rest = present_pairs(vars.drop_last());
        match vars.last().1 {
            Some(v) => rest.push((vars.last().0@, v@)),
            None => rest,
        }
    }
}

/// The pairs of `Seq`s that a vector of byte pairs holds.
pub open spec fn pairs_view(v: Seq<(Vec<u8>, Vec<u8>)>) -> Seq<(Seq<u8>, Seq<u8>)> {
    v.map_values(|p: (Vec<u8>, Vec<u8>)| (p.0@, p.1@))
}

/// The environment pairs to forward: each variable that is set, by name and
/// value, in the order given.
pub fn forward_env_vars(vars: Vec<(Vec<u8>, Option<Vec<u8>>)>) -> (r: Vec<(Vec<u8>, Vec<u8>)>)
    ensures
        pairs_view(r@) == present_pairs(vars@),
{
    let mut r: Vec<(Vec<u8>, Vec<u8>)> = Vec::new();
    let mut i: usize = 0;
    while i < vars.len()
        invariant
            i <= vars@.len(),
            pairs_view(r@) == present_pairs(vars@.subrange(0, i as int)),
        decreases vars@.len() - i,
    {
        let ghost before = r@;
        assert(vars@.subrange(0, i as int + 1).drop_last() =~= vars@.subrange(0, i as int));
        match &vars[i].1 {
            Some(v) => {
                r.push((clone_bytes(&vars[i].0), clone_bytes(v)));
                assert(pairs_view(r@) =~= pairs_view(before).push((vars@[i as int].0@, v@)));
            },
            None => {},
        }
        i = i + 1;
    }
    assert(vars@.subrange(0, i as int) =~= vars@);
    r
}

/// The decimal digits of `n`, most significant first.
pub open spec fn decimal(n: nat) -> Seq<u8>
    decreases n,
{
    if n < 10 {
        seq![(48 + n) as u8]
    } else {
        decimal(n / 10).push((48 + n % 10) as u8)
    }
}

/// The decimal digits of `n`.
pub fn decimal_digits(n: u32) -> (r: Vec<u8>)
    ensures
        r@ == decimal(n as nat),
    decreases n,
{
    if n < 10 {
        let r: Vec<u8> = vec![48u8 + n as u8];
        assert(r@ =~= decimal(n as nat));
        r
    } else {
        let mut r = decimal_digits(n / 10);
        r.push(48u8 + (n % 10) as u8);
        r
    }
}

/// `"rsrs.root.sock"` for the root daemon, `"rsrs.<pid>.sock"` for a leaf.
pub open spec fn spec_sock_file_name(leaf_pid: Option<u32>) -> Seq<u8> {
    match leaf_pid {
        None => seq![114u8, 115, 114, 115, 46] + seq![114u8, 111, 111, 116] + seq![46u8, 115, 111, 99, 107],
        Some(pid) => seq![114u8, 115, 114, 115, 46] + decimal(pid as nat) + seq![46u8, 115, 111, 99, 107],
    }
}

/// The file name of the daemon's socket in the temporary directory.
pub fn sock_file_name(leaf_pid: Option<u32>) -> (r: Vec<u8>)
    ensures
        r@ == spec_sock_file_name(leaf_pid),
{
    // "rsrs."
    let mut r: Vec<u8> = vec![114u8, 115, 114, 115, 46];
    let mut middle = match leaf_pid {
        // "root"
        None => vec![114u8, 111, 111, 116],
        Some(pid) => decimal_digits(pid),
    };
    // ".sock"
    let mut tail: Vec<u8> = vec![46u8, 115, 111, 99, 107];
    let ghost head = r@;
    let ghost mid = middle@;
    let ghost end = tail@;
    r.append(&mut middle);
    r.append(&mut tail);
    assert(r@ =~= head + mid + end);
    r
}

} // verus!
