//! Navigation events that a host application exchanges with its widgets.
//!
//! The bus that carries them between widgets is host glue and stays outside
//! the library; the event vocabulary itself is part of the core's interface.

use vstd::prelude::*;

verus! {

/// A navigation request raised by the user interface.
#[derive(Debug, Clone)]
pub enum Event {
    Back,
    Forward,
    Load { url: String, add_to_session: bool },
    Home,
    Quit,
    Stop,
    Refresh,
}

impl Event {
    pub fn back() -> (r: Self)
        ensures
            r is Back,
    {
        Self::Back
    }

    pub fn forward() -> (r: Self)
        ensures
            r is Forward,
    {
        Self::Forward
    }

    /// A load that is recorded in the session history.
    pub fn load(url: &str) -> (r: Self)
        ensures
            r matches Event::Load { url: u, add_to_session } && u@ == url@ && add_to_session,
    {
        Self::Load { url: url.to_owned(), add_to_session: true }
    }

    /// A load that leaves the session history untouched, as used when
    /// replaying a page that the history already holds.
    pub fn load_dont_track(url: &str) -> (r: Self)
        ensures
            r matches Event::Load { url: u, add_to_session } && u@ == url@ && !add_to_session,
    {
        Self::Load { url: url.to_owned(), add_to_session: false }
    }

    pub fn home() -> (r: Self)
        ensures
            r is Home,
    {
        Self::Home
    }

    pub fn quit() -> (r: Self)
        ensures
            r is Quit,
    {
        Self::Quit
    }

    pub fn stop() -> (r: Self)
        ensures
            r is Stop,
    {
        Self::Stop
    }

    pub fn refresh() -> (r: Self)
        ensures
            r is Refresh,
    {
        Self::Refresh
    }
}

} // verus!
