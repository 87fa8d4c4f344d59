use vstd::prelude::*;

verus! {

/// Seconds between two heartbeats.
pub const HEARTBEAT_INTERVAL_SECS: u64 = 2;

/// Why a session operation was refused.
#[derive(Debug, Clone, Copy, PartialEq, Eq, Structural)]
pub enum SessionError {
    /// A send failed earlier: the transport is broken.
    ConnectionLost,
    /// The inbound stream was already handed out.
    AlreadyTaken,
}

/// The state of a connection that the session's decisions depend on.
#[derive(Debug, Clone, Copy, PartialEq, Eq, Structural)]
pub struct Session {
    /// The inbound stream has been handed to a dispatch loop.
    pub receiver_taken: bool,
    /// A send has failed.
    pub broken: bool,
    /// Teardown was asked for.
    pub stop_requested: bool,
    /// The reference given to the latest outbound message; zero before the first.
    pub last_ref: u32,
}

/// What the heartbeat task does at a tick.
#[derive(Debug, Clone, Copy, PartialEq, Eq, Structural)]
pub enum HeartbeatAction {
    SendHeartbeat,
    Stop,
}

/// The result of asking for the inbound stream in state `s`.
pub open spec fn take_result(s: Session) -> Result<(), SessionError> {
    if s.broken {
        Err(SessionError::ConnectionLost)
    } else if s.receiver_taken {
        Err(SessionError::AlreadyTaken)
    } else {
        Ok(())
    }
}

/// The state after asking for the inbound stream in state `s`.
pub open spec fn after_take(s: Session) -> Session {
    match take_result(s) {
        Ok(_) => Session { receiver_taken: true, ..s },
        Err(_) => s,
    }
}

/// The inbound stream is handed out once: whatever the state, asking a second
/// time fails, and after a first request that succeeded it fails as already
/// taken.
pub proof fn lemma_receiver_taken_once(s: Session)
    ensures
        take_result(after_take(s)) is Err,
        take_result(s) is Ok ==> take_result(after_take(s)) == Err::<(), SessionError>(
            SessionError::AlreadyTaken,
        ),
{
}

impl Session {
    /// A freshly connected session.
    pub fn new() -> (s: Session)
        ensures
            !s.receiver_taken,
            !s.broken,
            !s.stop_requested,
            s.last_ref == 0,
    {
        Session { receiver_taken: false, broken: false, stop_requested: false, last_ref: 0 }
    }

    /// Hands out the inbound stream: once, and not on a broken session.
    pub fn take_receiver(&mut self) -> (r: Result<(), SessionError>)
        ensures
            r == take_result(*old(self)),
            *final(self) == after_take(*old(self)),
    {
        if self.broken {
            Err(SessionError::ConnectionLost)
        } else if self.receiver_taken {
            Err(SessionError::AlreadyTaken)
        } else {
            self.receiver_taken = true;
            Ok(())
        }
    }

    /// Whether a join or send may go out: refused once the session is broken.
    pub fn check_open(&self) -> (r: Result<(), SessionError>)
        ensures
            r == (if self.broken {
                Err(SessionError::ConnectionLost)
            } else {
                Ok(())
            }),
    {
        if self.broken {
            Err(SessionError::ConnectionLost)
        } else {
            Ok(())
        }
    }

    /// Records the outcome of a send on the transport: a failure breaks the
    /// session for good.
    pub fn record_send(&mut self, succeeded: bool)
        ensures
            final(self).broken == (old(self).broken || !succeeded),
            final(self).receiver_taken == old(self).receiver_taken,
            final(self).stop_requested == old(self).stop_requested,
            final(self).last_ref == old(self).last_ref,
    {
        if !succeeded {
            self.broken = true;
        }
    }

    /// Asks the heartbeat task and the dispatch loop to stop.
    pub fn request_stop(&mut self)
        ensures
            final(self).stop_requested,
            final(self).broken == old(self).broken,
            final(self).receiver_taken == old(self).receiver_taken,
            final(self).last_ref == old(self).last_ref,
    {
        self.stop_requested = true;
    }

    /// The reference for the next outbound message: one more than the last,
    /// or `None`, with nothing changed, once every reference has been used.
    pub fn next_ref(&mut self) -> (r: Option<u32>)
        ensures
            old(self).last_ref < u32::MAX ==> r == Some((old(self).last_ref + 1) as u32)
                && *final(self) == (Session { last_ref: (old(self).last_ref + 1) as u32, ..*old(self) }),
            old(self).last_ref == u32::MAX ==> r is None && *final(self) == *old(self),
    {
        if self.last_ref < u32::MAX {
            self.last_ref = self.last_ref + 1;
            Some(self.last_ref)
        } else {
            None
        }
    }

    /// What the heartbeat task does at a tick: it sends while the session is
    /// open, and stops once it is broken or being torn down.
    pub fn heartbeat_tick(&self) -> (a: HeartbeatAction)
        ensures
            a == (if self.broken || self.stop_requested {
                HeartbeatAction::Stop
            } else {
                HeartbeatAction::SendHeartbeat
            }),
    {
        if self.broken || self.stop_requested {
            HeartbeatAction::Stop
        } else {
            HeartbeatAction::SendHeartbeat
        }
    }
}

} // verus!
