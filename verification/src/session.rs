//! Session-token bookkeeping for the connection to the remote control
//! service.
//!
//! The caller owns the connection and the event stream; the state machine
//! here decides what each observed event does to the session and what the
//! listener must do next. The token store has one writer: the listener
//! applies each event in order and performs the returned action before
//! draining further events.

use vstd::prelude::*;

verus! {

/// Session state: the authentication token, when one is held.
#[derive(Debug)]
pub struct Session {
    pub auth_token: Option<String>,
}

/// One out-of-band event observed by the listener.
#[derive(Debug)]
pub enum SessionEvent {
    NewAuthToken(String),
    Other,
}

/// What the listener must do after applying one event.
#[derive(Debug)]
pub enum ListenerAction {
    PersistToken(String),
    LogOnly,
}

impl Session {
    /// Session restored from the persisted token store: absence means the
    /// handshake starts unauthenticated, presence means the token is offered
    /// for reuse.
    pub fn from_persisted(token: Option<String>) -> (r: Session)
        ensures
            r.auth_token == token,
    {
        Session { auth_token: token }
    }

    /// Applies one observed event. A new token replaces the session token
    /// and must be persisted with exactly its bytes, as a full overwrite;
    /// every other event leaves the session unchanged and is only logged.
    pub fn apply_event(&mut self, event: SessionEvent) -> (r: ListenerAction)
        ensures
            (match event {
                SessionEvent::NewAuthToken(t) => final(self).auth_token == Some(t) && r
                    == ListenerAction::PersistToken(t),
                SessionEvent::Other => *final(self) == *old(self) && r == ListenerAction::LogOnly,
            }),
    {
        match event {
            SessionEvent::NewAuthToken(t) => {
                let action = ListenerAction::PersistToken(t.clone());
                self.auth_token = Some(t);
                action
            },
            SessionEvent::Other => ListenerAction::LogOnly,
        }
    }
}

} // verus!
