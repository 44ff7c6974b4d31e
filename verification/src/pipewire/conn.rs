//! Waiting until the server has answered everything asked before.

use vstd::prelude::*;
use vstd::string::*;

verus! {

/// How long the server has to answer, in nanoseconds.
pub const ROUNDTRIP_TIMEOUT: u64 = 5_000_000_000;

/// How a wait ended, so far.
#[derive(Debug)]
pub enum Roundtrip {
    Pending,
    Done,
    Error(String),
}

/// The outcome of a wait.
pub open spec fn outcome(state: Roundtrip) -> Result<(), Seq<char>> {
    match state {
        Roundtrip::Done => Ok(()),
        Roundtrip::Error(e) => Err("PipeWire connection error: "@ + e@),
        Roundtrip::Pending => Err("Timed out waiting for PipeWire to answer."@),
    }
}

impl Roundtrip {
    /// The server has completed a request; the wait is over, and `true` is returned,
    /// where it is the one that is waited for, on the core object.
    pub fn done(&mut self, id: u32, seq: i32, pending: i32) -> (quit: bool)
        ensures
            quit == (id == 0 && seq == pending),
            *final(self) == if quit {
                Roundtrip::Done
            } else {
                *old(self)
            },
    {
        if id == 0 && seq == pending {
            *self = Roundtrip::Done;
            true
        } else {
            false
        }
    }

    /// The connection has reported an error: the wait is over.
    pub fn error(&mut self, message: String)
        ensures
            *final(self) == Roundtrip::Error(message),
    {
        *self = Roundtrip::Error(message);
    }

    /// The outcome of the wait: one that is still pending has run out of time.
    pub fn result(&self) -> (r: Result<(), String>)
        ensures
            outcome(*self) == match r {
                Ok(x) => Ok(x),
                Err(e) => Err(e@),
            },
    {
        match self {
            Roundtrip::Done => Ok(()),
            Roundtrip::Error(e) => Err("PipeWire connection error: ".to_owned().concat(e)),
            Roundtrip::Pending => Err("Timed out waiting for PipeWire to answer.".to_owned()),
        }
    }
}

} // verus!
