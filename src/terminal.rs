//! Scoped raw mode on a terminal: entered at most once, left at most once,
//! with the saved settings restored on leaving.
use nix::sys::termios::{self, SetArg, Termios};
use vstd::prelude::*;

verus! {

/// `nix::sys::termios::Termios`, opaque: saved and handed back to nix.
#[verifier::external_type_specification]
#[verifier::external_body]
pub struct ExTermios(Termios);

/// `nix::Error`, opaque: returned to the caller as it came.
#[verifier::external_type_specification]
#[verifier::external_body]
pub struct ExNixError(nix::Error);

/// Relies on `nix::sys::termios::tcgetattr`: the current settings of `fd`.
#[verifier::external_body]
fn get_attr(fd: i32) -> (r: Result<Termios, nix::Error>) {
    termios::tcgetattr(fd)
}

/// Relies on `Termios::clone`: a copy of the settings.
#[verifier::external_body]
fn copy_attr(t: &Termios) -> (r: Termios) {
    t.clone()
}

/// Relies on `nix::sys::termios::cfmakeraw`, which also sets `VMIN` to 1 and
/// `VTIME` to 0: reads return as soon as one byte is there.
#[verifier::external_body]
fn make_raw(t: &mut Termios) {
    termios::cfmakeraw(t)
}

/// Relies on `nix::sys::termios::tcsetattr` with `TCSAFLUSH`: applies the
/// settings once pending output is written, discarding pending input.
#[verifier::external_body]
fn set_attr(fd: i32, t: &Termios) -> (r: Result<(), nix::Error>) {
    termios::tcsetattr(fd, SetArg::TCSAFLUSH, t)
}

/// Raw mode on the terminal `fd`, with the settings to restore.
pub struct RawMode {
    fd: i32,
    orig: Option<Termios>,
}

impl RawMode {
    pub closed spec fn fd(&self) -> i32 {
        self.fd
    }

    pub closed spec fn spec_is_raw(&self) -> bool {
        self.orig.is_some()
    }

    /// Raw mode on `fd`, not entered yet.
    pub fn new(fd: i32) -> (r: RawMode)
        ensures
            r.fd() == fd,
            !r.spec_is_raw(),
    {
        RawMode { fd, orig: None }
    }

    pub fn is_raw_mode(&self) -> (r: bool)
        ensures
            r == self.spec_is_raw(),
    {
        self.orig.is_some()
    }

    /// Enters raw mode; `Ok(false)` if it was entered already. On an error
    /// the terminal is left as it was.
    pub fn enter(&mut self) -> (r: Result<bool, nix::Error>)
        ensures
            final(self).fd() == old(self).fd(),
            old(self).spec_is_raw() ==> (r matches Ok(false) && final(self).spec_is_raw()),
            !old(self).spec_is_raw() ==> match r {
                Ok(entered) => entered && final(self).spec_is_raw(),
                Err(_) => !final(self).spec_is_raw(),
            },
    {
        if self.orig.is_some() {
            return Ok(false);
        }
        let orig = match get_attr(self.fd) {
            Ok(t) => t,
            Err(e) => return Err(e),
        };
        let mut raw = copy_attr(&orig);
        make_raw(&mut raw);
        match set_attr(self.fd, &raw) {
            Ok(()) => {},
            Err(e) => return Err(e),
        }
        self.orig = Some(orig);
        Ok(true)
    }

    /// Leaves raw mode, restoring the saved settings; `Ok(false)` if it was
    /// not in raw mode. Calling it again does nothing, so it is safe on
    /// every exit path.
    pub fn leave(&mut self) -> (r: Result<bool, nix::Error>)
        ensures
            final(self).fd() == old(self).fd(),
            !final(self).spec_is_raw(),
            !old(self).spec_is_raw() ==> r matches Ok(false),
            old(self).spec_is_raw() ==> !(r matches Ok(false)),
    {
        match self.orig.take() {
            None => Ok(false),
            Some(orig) => match set_attr(self.fd, &orig) {
                Ok(()) => Ok(true),
                Err(e) => Err(e),
            },
        }
    }
}

} // verus!
