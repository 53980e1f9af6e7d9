//! What a peer settles before a session starts.

use vstd::prelude::*;

verus! {

/// How many readiness events one poll may report.
pub const EVENT_CAPACITY: usize = 1024;

/// Width of the pseudo-terminal's window when it is opened, in columns.
pub const PTY_COLS: u16 = 80;

/// Height of the pseudo-terminal's window when it is opened, in rows.
pub const PTY_ROWS: u16 = 32;

/// The address a server binds to: every interface, or this machine only
/// where it is built for local use.
pub fn bind_host(local: bool) -> (host: &'static str)
    ensures
        host@ == (if local {
            "127.0.0.1"@
        } else {
            "0.0.0.0"@
        }),
{
    if local {
        "127.0.0.1"
    } else {
        "0.0.0.0"
    }
}

/// The program a server runs: the user's shell where the environment names
/// one, else `/bin/bash`.
pub fn shell_or_default(shell: Option<&str>) -> (program: String)
    ensures
        program@ == (match shell {
            Some(s) => s@,
            None => "/bin/bash"@,
        }),
{
    match shell {
        Some(s) => s.to_owned(),
        None => "/bin/bash".to_owned(),
    }
}

} // verus!
