//! The client side of the proxy: a remote server is reached over HTTP, with authentication where
//! it asks for it.

use crate::status::{status_code, status_line, status_text};
use crate::string_map::{lists_entries, StringMap};
use crate::text::joined;
use vstd::prelude::*;

verus! {

/// The remote server to connect to, and the headers to send.
pub struct LocalSseClientConfig {
    pub url: String,
    pub headers: StringMap,
}

/// How long the remote server has to answer, in seconds.
pub const PROBE_SECONDS: u64 = 30;

/// The request that asks the remote server whether it lets the client in.
pub struct ProbeRequest {
    pub url: String,
    pub headers: Vec<(String, String)>,
    pub timeout: u64,
}

/// The request that asks the remote server whether it lets the client in: it goes to the
/// configured URL with the configured headers.
pub fn probe_request(config: &LocalSseClientConfig) -> (r: ProbeRequest)
    ensures
        r.url@ == config.url@,
        lists_entries(r.headers@, config.headers@),
        r.timeout == PROBE_SECONDS,
{
    ProbeRequest {
        url: config.url.clone(),
        headers: config.headers.to_list(),
        timeout: PROBE_SECONDS,
    }
}

/// How far connecting to the remote server has come.
#[derive(Debug, Clone, Copy, PartialEq, Eq, Structural)]
pub enum ClientPhase {
    /// The server was asked and has not answered.
    Probing,
    /// The server asked for authentication, and it is not settled who sees to it.
    Coordinating,
    /// This instance, or another one, sees to the authentication.
    Authenticating,
    /// The server lets the client in, without authentication or with it.
    Connected { authenticated: bool },
    /// The server gave an answer that the client does not know how to go on from.
    Rejected,
}

/// What happens while the client connects.
pub enum ClientEvent {
    /// The server answered with this status code.
    Answered(u16),
    /// This instance is to see to the authentication, at this address.
    HandleAuth { auth_url: String },
    /// Another instance sees to the authentication and holds this lock.
    WaitForAuth { lock_file: String },
    /// The authentication was done before.
    AuthDone,
    /// The authentication that was seen to has succeeded.
    Authenticated,
}

/// What the client does next.
pub enum ClientAction {
    /// Settle who sees to the authentication.
    CoordinateAuth,
    /// Have the user authenticate at this address.
    HandleAuth { auth_url: String },
    /// Wait for the instance that holds this lock.
    WaitForAuth { lock_file: String },
    /// Go on with the connection.
    Proceed,
    /// Give up with this error.
    Fail { error: String },
}

/// Whether an event can happen in this phase.
pub open spec fn happens_in(phase: ClientPhase, event: ClientEvent) -> bool {
    match event {
        ClientEvent::Answered(code) => phase == ClientPhase::Probing && status_code(code),
        ClientEvent::Authenticated => phase == ClientPhase::Authenticating,
        _ => phase == ClientPhase::Coordinating,
    }
}

/// The phase after an event.
pub open spec fn client_next(event: ClientEvent) -> ClientPhase {
    match event {
        ClientEvent::Answered(code) => if code == 200 {
            ClientPhase::Connected { authenticated: false }
        } else if code == 401 {
            ClientPhase::Coordinating
        } else {
            ClientPhase::Rejected
        },
        ClientEvent::HandleAuth { .. } => ClientPhase::Authenticating,
        ClientEvent::WaitForAuth { .. } => ClientPhase::Authenticating,
        ClientEvent::AuthDone => ClientPhase::Connected { authenticated: true },
        ClientEvent::Authenticated => ClientPhase::Connected { authenticated: true },
    }
}

/// Whether an action is the one that follows an event.
pub open spec fn follows(event: ClientEvent, action: ClientAction) -> bool {
    match (event, action) {
        (ClientEvent::Answered(code), ClientAction::Proceed) => code == 200,
        (ClientEvent::Answered(code), ClientAction::CoordinateAuth) => code == 401,
        (ClientEvent::Answered(code), ClientAction::Fail { error }) => {
            &&& code != 200 && code != 401
            &&& error@ == "Unexpected status code: "@ + status_line(code)
        },
        (ClientEvent::HandleAuth { auth_url }, ClientAction::HandleAuth { auth_url: address }) =>
        address@ == auth_url@,
        (ClientEvent::WaitForAuth { lock_file }, ClientAction::WaitForAuth { lock_file: lock }) =>
        lock@ == lock_file@,
        (ClientEvent::AuthDone, ClientAction::Proceed) => true,
        (ClientEvent::Authenticated, ClientAction::Proceed) => true,
        _ => false,
    }
}

/// The error when the server answers with this status, which is neither success nor a demand for
/// authentication.
pub fn unexpected_text(status: &str) -> (r: String)
    ensures
        r@ == "Unexpected status code: "@ + status@,
{
    joined("Unexpected status code: ", status)
}

/// A connection to a remote server in the making.
pub struct ClientConnection {
    pub phase: ClientPhase,
}

impl ClientConnection {
    /// A connection whose server was asked and has not answered.
    pub fn new() -> (r: Self)
        ensures
            r.phase == ClientPhase::Probing,
    {
        ClientConnection { phase: ClientPhase::Probing }
    }

    /// Takes an event and returns what to do next.
    pub fn step(&mut self, event: ClientEvent) -> (r: ClientAction)
        requires
            happens_in(old(self).phase, event),
        ensures
            final(self).phase == client_next(event),
            follows(event, r),
    {
        match event {
            ClientEvent::Answered(code) => {
                if code == 200 {
                    self.phase = ClientPhase::Connected { authenticated: false };
                    ClientAction::Proceed
                } else if code == 401 {
                    self.phase = ClientPhase::Coordinating;
                    ClientAction::CoordinateAuth
                } else {
                    self.phase = ClientPhase::Rejected;
                    let status = status_text(code);
                    ClientAction::Fail { error: unexpected_text(status.as_str()) }
                }
            },
            ClientEvent::HandleAuth { auth_url } => {
                self.phase = ClientPhase::Authenticating;
                ClientAction::HandleAuth { auth_url }
            },
            ClientEvent::WaitForAuth { lock_file } => {
                self.phase = ClientPhase::Authenticating;
                ClientAction::WaitForAuth { lock_file }
            },
            ClientEvent::AuthDone => {
                self.phase = ClientPhase::Connected { authenticated: true };
                ClientAction::Proceed
            },
            ClientEvent::Authenticated => {
                self.phase = ClientPhase::Connected { authenticated: true };
                ClientAction::Proceed
            },
        }
    }
}

/// The phase of a connection after some events.
pub open spec fn client_after(events: Seq<ClientEvent>) -> ClientPhase {
    if events.len() == 0 {
        ClientPhase::Probing
    } else {
        client_next(events.last())
    }
}

/// Whether each event happens in a phase in which it can.
pub open spec fn all_happen(events: Seq<ClientEvent>) -> bool
    decreases events.len(),
{
    events.len() == 0 || {
        &&& all_happen(events.drop_last())
        &&& happens_in(client_after(events.drop_last()), events.last())
    }
}

/// A connection that goes on was let in at once, or the server asked for authentication first and
/// then it was done.
pub proof fn law_connected_only_when_let_in(events: Seq<ClientEvent>)
    requires
        all_happen(events),
        client_after(events) is Connected,
    ensures
        events[0] matches ClientEvent::Answered(code) && (if client_after(events)
            == (ClientPhase::Connected { authenticated: false }) {
            code == 200 && events.len() == 1
        } else {
            code == 401 && (events.last() is AuthDone || events.last() is Authenticated)
        }),
{
    law_client_history(events);
}

/// Whatever happens, connecting takes one answer of the server and at most two more events.
pub proof fn law_client_history(events: Seq<ClientEvent>)
    requires
        all_happen(events),
    ensures
        events.len() <= 3,
        events.len() > 0 ==> events[0] is Answered,
        events.len() > 1 ==> events[0] == ClientEvent::Answered(401),
        events.len() == 2 ==> events[1] is HandleAuth || events[1] is WaitForAuth || events[1]
            is AuthDone,
        events.len() == 3 ==> events[2] is Authenticated && events[1] !is AuthDone,
    decreases events.len(),
{
    if events.len() > 0 {
        let before = events.drop_last();
        law_client_history(before);
        if before.len() > 0 {
            assert(events[0] == before[0]);
            assert(before.last() == events[events.len() - 2]);
        }
    }
}

/// The client goes on exactly where it was let in, gives up exactly where it was rejected, and
/// sees to the authentication exactly where the server asked for it.
pub proof fn law_actions_fit_the_phase(event: ClientEvent, action: ClientAction)
    requires
        follows(event, action),
    ensures
        action is Proceed <==> client_next(event) is Connected,
        action is Fail <==> client_next(event) is Rejected,
        action is CoordinateAuth <==> client_next(event) is Coordinating,
        action is HandleAuth || action is WaitForAuth <==> client_next(event) is Authenticating,
        client_next(event) !is Probing,
{
}

/// Of the answers of a server, 200 alone lets the client in, 401 alone asks for authentication,
/// and each other is given up on with an error that names it.
pub proof fn law_answers(code: u16, action: ClientAction)
    requires
        follows(ClientEvent::Answered(code), action),
    ensures
        action is Proceed <==> code == 200,
        action is CoordinateAuth <==> code == 401,
        action is Fail <==> code != 200 && code != 401,
        action matches ClientAction::Fail { error } ==> error@ == "Unexpected status code: "@
            + status_line(code),
        code == 200 <==> client_next(ClientEvent::Answered(code)) == (ClientPhase::Connected {
            authenticated: false,
        }),
        code == 401 <==> client_next(ClientEvent::Answered(code)) == ClientPhase::Coordinating,
        code != 200 && code != 401 <==> client_next(ClientEvent::Answered(code))
            == ClientPhase::Rejected,
{
}

/// Who is to see to the authentication is what was settled, at the address or with the lock that
/// was settled, and once it is done the client goes on as authenticated.
pub proof fn law_authentication_is_followed(event: ClientEvent, action: ClientAction)
    requires
        event !is Answered,
        follows(event, action),
    ensures
        event is HandleAuth <==> action is HandleAuth,
        event is WaitForAuth <==> action is WaitForAuth,
        event matches ClientEvent::HandleAuth { auth_url } ==> (action
            matches ClientAction::HandleAuth { auth_url: address } && address@ == auth_url@),
        event matches ClientEvent::WaitForAuth { lock_file } ==> (action
            matches ClientAction::WaitForAuth { lock_file: lock } && lock@ == lock_file@),
        event is AuthDone || event is Authenticated <==> action is Proceed,
        event is AuthDone || event is Authenticated <==> client_next(event) == (
        ClientPhase::Connected { authenticated: true }),
{
}

/// An answer can come at any status while the server was asked, the authentication can be settled
/// and done only in their turn, and nothing happens once the client was let in or rejected.
pub proof fn law_events_come_in_turn(phase: ClientPhase, event: ClientEvent)
    ensures
        event matches ClientEvent::Answered(code) ==> (happens_in(phase, event) <==> phase is Probing
            && 100 <= code <= 999),
        event is HandleAuth || event is WaitForAuth || event is AuthDone ==> (happens_in(phase, event)
            <==> phase is Coordinating),
        event is Authenticated ==> (happens_in(phase, event) <==> phase is Authenticating),
        phase is Connected || phase is Rejected ==> !happens_in(phase, event),
{
}

} // verus!
