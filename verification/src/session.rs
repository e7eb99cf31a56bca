//! The connection-session state machine: one instance per live
//! connection, owning the handshake, the catch-up replay, and the
//! decisions of the streaming loop. The connection layer feeds it
//! events and performs the frames and deliveries it calls for.

use vstd::prelude::*;
use crate::types::{UserID, ServerAction, UserAction, ChatError};
use crate::auth::Jwt;
use crate::chat::{ChatServer, room_notices};
use crate::engine::{
    has_user, is_connected, user_of, user_index, actions_view,
};
use crate::dispatch::DispatchOutcome;
use crate::timing::TimeState;

verus! {

/// Where a session stands.
pub enum SessionState {
    Handshaking,
    Authenticating,
    CatchUp,
    Streaming,
    Closing,
    Closed,
}

/// One logical connection: its state, and the identity it holds once
/// authenticated.
pub struct Session {
    pub state: SessionState,
    pub user: Option<UserID>,
}

/// View of the identity a session holds.
pub open spec fn session_user_view(s: Session) -> Option<Seq<char>> {
    match s.user {
        Some(u) => Some(u@),
        None => None,
    }
}

impl Session {
    /// A session for a connection just accepted: no identity yet.
    pub fn new() -> (r: Self)
        ensures
            r.state is Handshaking,
            r.user is None,
    {
        Session { state: SessionState::Handshaking, user: None }
    }

    /// The connection is up; the first frame must carry a credential.
    pub fn begin_auth(&mut self)
        requires
            old(self).state is Handshaking,
        ensures
            final(self).state is Authenticating,
            final(self).user == old(self).user,
    {
        self.state = SessionState::Authenticating;
    }

    /// Judge the first inbound frame's credential, as checked against
    /// the clock, and claim the single live session for its identity.
    /// A missing or rejected credential, an unknown identity, or an
    /// already-active session sends the session to `Closing` with no
    /// outbound content — the silent reject of the handshake contract.
    /// On success the session holds the identity, presence turns
    /// `Active`, and the catch-up sequence to replay is returned.
    pub fn authenticate(&mut self, server: &mut ChatServer, claims: Option<Jwt>, now: u64) -> (r:
        Option<Vec<ServerAction>>)
        requires
            old(self).state is Authenticating,
            old(self).user is None,
            old(server).wf(),
        ensures
            final(server).wf(),
            match claims {
                None => {
                    &&& r is None
                    &&& final(self).state is Closing
                    &&& final(self).user is None
                    &&& final(server)@ == old(server)@
                },
                Some(j) => {
                    if !crate::auth::spec_jwt_current(j.exp, now) || !has_user(
                        old(server)@.users, j.name@) || is_connected(old(server)@.users,
                        j.name@) {
                        &&& r is None
                        &&& final(self).state is Closing
                        &&& final(server)@ == old(server)@
                    } else {
                        &&& final(self).state is CatchUp
                        &&& session_user_view(*final(self)) == Some(j.name@)
                        &&& final(server)@.users == old(server)@.users.update(user_index(
                            old(server)@.users, j.name@),
                            (crate::types::UserV {
                                status: crate::types::UserStatusV::Active,
                                ..user_of(old(server)@.users, j.name@)
                            }))
                        &&& final(server)@.rooms == old(server)@.rooms
                        &&& final(server)@.log == old(server)@.log
                        &&& r matches Some(catchup) && actions_view(catchup@) == room_notices(
                            old(server)@.rooms, j.name@) + user_of(old(server)@.users,
                            j.name@).status->queue
                    }
                },
            },
    {
        let Some(j) = claims else {
            self.state = SessionState::Closing;
            return None;
        };
        if !j.is_current(now) {
            self.state = SessionState::Closing;
            return None;
        }
        match server.connect(&j.name) {
            Ok(catchup) => {
                self.user = Some(j.name);
                self.state = SessionState::CatchUp;
                Some(catchup)
            },
            Err(_) => {
                self.state = SessionState::Closing;
                None
            },
        }
    }

    /// The catch-up replay has been sent: enter the streaming loop.
    pub fn enter_streaming(&mut self)
        requires
            old(self).state is CatchUp,
        ensures
            final(self).state is Streaming,
            final(self).user == old(self).user,
    {
        self.state = SessionState::Streaming;
    }

    /// Dispatch one inbound action while streaming.
    pub fn on_action(
        &self,
        server: &mut ChatServer,
        time: &mut TimeState,
        action: UserAction,
        now: u64,
    ) -> (r: Result<DispatchOutcome, ChatError>)
        requires
            old(server).wf(),
            old(time).wf(),
            old(time).id_counter < i64::MAX,
        ensures
            final(server).wf(),
            final(time).wf(),
            self.state is Streaming && self.user is Some <==> r is Ok,
            r matches Ok(out) ==> crate::dispatch::dispatch_post(old(server)@, final(server)@,
                old(time)@, final(time)@, old(time).id_counter, final(time).id_counter,
                self.user->0@, action, out@, now),
            !(self.state is Streaming) || self.user is None ==> final(server)@ == old(server)@
                && final(time)@ == old(time)@,
    {
        match self.state {
            SessionState::Streaming => match &self.user {
                Some(u) => Ok(crate::dispatch::dispatch(server, time, u, action, now)),
                None => Err(ChatError::CredentialFailure),
            },
            _ => Err(ChatError::CredentialFailure),
        }
    }

    /// Wind the session down — a close frame arrived, the stream
    /// failed, or the process is shutting down. Presence returns to
    /// `Disconnected` with an empty queue; events already drained are
    /// not requeued. Idempotent, and terminal.
    pub fn close(&mut self, server: &mut ChatServer)
        requires
            old(server).wf(),
        ensures
            final(server).wf(),
            final(self).state is Closed,
            final(self).user == old(self).user,
            final(server)@.rooms == old(server)@.rooms,
            final(server)@.log == old(server)@.log,
            match old(self).user {
                None => final(server)@.users == old(server)@.users,
                Some(u) => {
                    if has_user(old(server)@.users, u@) {
                        final(server)@.users == old(server)@.users.update(user_index(
                            old(server)@.users, u@),
                            (crate::types::UserV {
                                status: (crate::types::UserStatusV::Inactive {
                                    queue: Seq::empty(),
                                }),
                                ..user_of(old(server)@.users, u@)
                            }))
                    } else {
                        final(server)@.users == old(server)@.users
                    }
                },
            },
    {
        if let Some(u) = &self.user {
            server.close_user(u);
        }
        self.state = SessionState::Closed;
    }
}

} // verus!
