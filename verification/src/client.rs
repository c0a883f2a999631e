//! The decisions of one fetch, free of any transport.
//!
//! A fetch runs strictly in sequence: connect, verify trust, send the
//! request line, read to end of stream, parse.  The host performs the
//! transport steps; this module fixes what is sent, when the fetch must
//! abort, and how the phases may follow one another.

use vstd::prelude::*;
use vstd::string::StringExecFns;

use crate::error::Error;
use crate::text::crlf;
use crate::verification::State;

verus! {

/// The request line for a target: its absolute URL followed by CRLF.
pub fn build_request(url: &str) -> (r: String)
    ensures
        r@ == url@ + crlf(),
{
    let mut s = url.to_owned();
    s.append("\r\n");
    proof {
        reveal_strlit("\r\n");
        assert("\r\n"@ =~= crlf());
        assert(s@ =~= url@ + crlf());
    }
    s
}

/// A fetch proceeds on any trust state but `Conflict`; a conflict blocks
/// the request before any byte is written, until the caller explicitly
/// overrides.
pub fn trust_gate(state: State) -> (r: Result<(), Error>)
    ensures
        (r is Ok) <==> state != State::Conflict,
        r is Err ==> (r matches Err(e) && e == Error::TrustConflict),
{
    if state == State::Conflict {
        Err(Error::TrustConflict)
    } else {
        Ok(())
    }
}

/// The well-known port of the protocol, used when a request target names
/// none.
pub fn default_port(explicit: Option<u16>) -> (r: u16)
    ensures
        r == match explicit {
            Some(p) => p,
            None => 1965u16,
        },
{
    match explicit {
        Some(p) => p,
        None => 1965,
    }
}

/// The phases of one fetch; `Parsed`, `Aborted` and `Failed` are terminal.
#[derive(Debug, Clone, Copy, PartialEq, Eq, Structural)]
pub enum FetchPhase {
    Connecting,
    Verifying,
    Sending,
    Receiving,
    Parsed,
    Aborted,
    Failed,
}

/// What the host reports back after performing the work of a phase.
#[derive(Debug, Clone, Copy, PartialEq, Eq, Structural)]
pub enum FetchStep {
    Connected,
    Verified(State),
    Sent,
    Received,
}

/// The transition relation of a fetch: connecting leads to verifying; a
/// verification outcome leads to sending, or to an abort on a conflict;
/// sending leads to receiving, receiving to parsed.  Any step a phase does
/// not expect fails the fetch.
pub open spec fn advance_spec(p: FetchPhase, e: FetchStep) -> FetchPhase {
    match (p, e) {
        (FetchPhase::Connecting, FetchStep::Connected) => FetchPhase::Verifying,
        (FetchPhase::Verifying, FetchStep::Verified(st)) => if st is Conflict {
            FetchPhase::Aborted
        } else {
            FetchPhase::Sending
        },
        (FetchPhase::Sending, FetchStep::Sent) => FetchPhase::Receiving,
        (FetchPhase::Receiving, FetchStep::Received) => FetchPhase::Parsed,
        _ => FetchPhase::Failed,
    }
}

/// Whether a phase is terminal.
pub open spec fn is_terminal(p: FetchPhase) -> bool {
    p is Parsed || p is Aborted || p is Failed
}

/// Advances a fetch by one completed step.
pub fn advance(p: FetchPhase, e: FetchStep) -> (r: FetchPhase)
    ensures
        r == advance_spec(p, e),
{
    match (p, e) {
        (FetchPhase::Connecting, FetchStep::Connected) => FetchPhase::Verifying,
        (FetchPhase::Verifying, FetchStep::Verified(st)) => {
            if st == State::Conflict {
                FetchPhase::Aborted
            } else {
                FetchPhase::Sending
            }
        },
        (FetchPhase::Sending, FetchStep::Sent) => FetchPhase::Receiving,
        (FetchPhase::Receiving, FetchStep::Received) => FetchPhase::Parsed,
        _ => FetchPhase::Failed,
    }
}

/// A terminal phase never advances: every step from it fails the fetch.
pub proof fn lemma_terminal_stays_terminal(p: FetchPhase, e: FetchStep)
    requires
        is_terminal(p),
    ensures
        is_terminal(advance_spec(p, e)),
{
}

} // verus!
