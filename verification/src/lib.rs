//! Building blocks of a remote terminal session: a writer that never makes
//! its caller wait, and the rules by which the two peers route bytes.
//!
//! A server runs a shell on a pseudo-terminal and shares it with one viewer
//! over an encrypted connection; both show the same screen. Each peer waits
//! on a poller and serves the events it reports, batch by batch:
//!
//! - [`patient`] holds the writer that stands in front of every endpoint
//!   that may refuse bytes, and [`screen`] the local terminal's output;
//! - [`event`] names the endpoints and orders a batch of events;
//! - [`server`] and [`client`] say what each peer does about an event;
//! - [`stdin`] holds the queue between the keyboard's reader and the session;
//! - [`address`], [`secret`] and [`setup`] read and make what the peers
//!   settle before a session starts.

use vstd::prelude::*;

pub mod address;
pub mod client;
pub mod event;
pub mod patient;
pub mod screen;
pub mod secret;
pub mod server;
pub mod setup;
mod sink;
pub mod stdin;
mod text;

pub use address::{parse_addr, parse_port, port_or_default};
pub use client::{Client, ClientView};
pub use event::{in_service_order, of_token, service_order, Event, Step, Task, Token};
pub use patient::{Ledger, PatientWriter};
pub use screen::{Screen, ScreenView};
pub use secret::{
    authenticate, fresh_password, parse_password, password_from, password_of, session_line,
    Admission, Credentials, InvalidPassword,
};
pub use server::{Server, ServerView};
pub use setup::{bind_host, shell_or_default, EVENT_CAPACITY, PTY_COLS, PTY_ROWS};
pub use sink::{is_would_block, Record};
pub use stdin::{packet_of, PacketQueue, STDIN_CHUNK};
use sink::would_block;

verus! {

/// Port the server listens on when none is given.
pub const PORT: u16 = 53202;

/// Size of the scratch buffer a peer reads into.
pub const BUFSIZE: usize = 8192;

/// Length in bytes of the one-shot session password.
pub const PASSLEN: usize = 32;

/// What `maybe` makes of an I/O result.
pub open spec fn spec_maybe<T>(res: Result<T, std::io::Error>) -> Result<
    Option<T>,
    std::io::Error,
> {
    match res {
        Ok(v) => Ok(Some(v)),
        Err(e) => if is_would_block(e) {
            Ok(None)
        } else {
            Err(e)
        },
    }
}

/// Turns "would block" into the absence of a value and leaves every other
/// outcome as it is.
pub fn maybe<T>(res: Result<T, std::io::Error>) -> (r: Result<Option<T>, std::io::Error>)
    ensures
        r == spec_maybe(res),
{
    match res {
        Ok(v) => Ok(Some(v)),
        Err(e) => {
            if would_block(&e) {
                Ok(None)
            } else {
                Err(e)
            }
        },
    }
}

} // verus!
