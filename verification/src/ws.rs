//! The real-time layer's verified half: the event and client message
//! shapes, and the pure decision of how to answer a client message. The
//! transport and the broadcast channel live outside the library; they
//! perform whatever action is decided here and hand back the next
//! message.

use vstd::prelude::*;

use crate::task::Task;

verus! {

/// One event pushed to every live connection: a task change with its
/// resulting snapshot and the acting account, a presence change, or a
/// plain notification.
pub enum WebSocketMessage {
    TaskCreated { task: Task, user_id: u128 },
    TaskUpdated { task: Task, user_id: u128 },
    TaskDeleted { task_id: u128, user_id: u128 },
    UserConnected { user_id: u128, username: String },
    UserDisconnected { user_id: u128 },
    Notification { message: String, notification_type: String, user_id: Option<u128> },
}

/// One message a client may send on its connection.
pub enum ClientMessage {
    Ping,
    Subscribe { room: String },
    Unsubscribe { room: String },
    Authenticate { token: String },
}

/// What the connection layer should do with a client message.
pub enum ClientAction {
    /// Verify the token and, if it is good, announce the account.
    CheckToken { token: String },
    /// Answer the keep-alive.
    Pong,
    /// Nothing to broadcast.
    Ignore,
}

/// Decide how to answer one client message: an authentication request
/// asks for its token to be checked, a ping is answered, and room
/// bookkeeping carries no broadcast.
pub fn client_action(msg: ClientMessage) -> (r: ClientAction)
    ensures
        (msg matches ClientMessage::Authenticate { token } ==> r == ClientAction::CheckToken {
            token,
        }),
        (msg matches ClientMessage::Ping ==> r == ClientAction::Pong),
        (msg matches ClientMessage::Subscribe { .. } ==> r == ClientAction::Ignore),
        (msg matches ClientMessage::Unsubscribe { .. } ==> r == ClientAction::Ignore),
{
    match msg {
        ClientMessage::Authenticate { token } => ClientAction::CheckToken { token },
        ClientMessage::Ping => ClientAction::Pong,
        ClientMessage::Subscribe { .. } => ClientAction::Ignore,
        ClientMessage::Unsubscribe { .. } => ClientAction::Ignore,
    }
}

} // verus!
