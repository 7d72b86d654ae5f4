//! The decisions of a viewer connection on the server: the heartbeat that
//! closes silent connections, and the chaining of board updates, each
//! carrying the grid that the previous one showed.

use vstd::prelude::*;

use crate::board::{BoardState, Grid};

verus! {

/// Seconds between heartbeat pings.
pub const PING_INTERVAL_SECS: u64 = 30;

/// Seconds a client has to answer a ping.
pub const PONG_TIMEOUT_SECS: u64 = 10;

/// What happens on a viewer connection.
#[derive(Debug, Clone, Copy, PartialEq, Eq, Structural)]
pub enum ConnectionEvent {
    /// The ping interval fired.
    PingTick,
    /// The pong deadline passed.
    PongTimeout,
    /// A board message was broadcast to all viewers.
    Broadcast,
    /// This viewer fell behind and missed broadcasts.
    BroadcastLagged,
    /// The broadcast channel closed.
    BroadcastClosed,
    /// The client answered a ping.
    Pong,
    /// The client sent text.
    Text,
    /// The client closed the connection, or it ended.
    Closed,
    /// Receiving from the client failed.
    ReceiveError,
    /// Any other frame from the client.
    Other,
}

/// What the connection does in answer.
#[derive(Debug, Clone, Copy, PartialEq, Eq, Structural)]
pub enum ConnectionAction {
    /// Send a ping and start the pong deadline.
    SendPing,
    /// Send the broadcast message to the client.
    Forward,
    /// Stop waiting for a pong: clear the deadline.
    ClearDeadline,
    /// Nothing to do.
    Nothing,
    /// Close the connection.
    Close,
}

/// The heartbeat of a connection: whether a ping awaits its pong, and the
/// action for `event`. A second ping tick while a pong is awaited, a passed
/// deadline, a closed channel or connection, and a receive error close the
/// connection.
pub fn on_connection_event(awaiting_pong: bool, event: ConnectionEvent) -> (r: (bool, ConnectionAction))
    ensures
        r == on_connection_event_spec(awaiting_pong, event),
{
    match event {
        ConnectionEvent::PingTick => if awaiting_pong {
            (true, ConnectionAction::Close)
        } else {
            (true, ConnectionAction::SendPing)
        },
        ConnectionEvent::PongTimeout => if awaiting_pong {
            (true, ConnectionAction::Close)
        } else {
            (false, ConnectionAction::Nothing)
        },
        ConnectionEvent::Broadcast => (awaiting_pong, ConnectionAction::Forward),
        ConnectionEvent::BroadcastLagged => (awaiting_pong, ConnectionAction::Nothing),
        ConnectionEvent::BroadcastClosed => (awaiting_pong, ConnectionAction::Close),
        ConnectionEvent::Pong => (false, ConnectionAction::ClearDeadline),
        ConnectionEvent::Text => (awaiting_pong, ConnectionAction::Nothing),
        ConnectionEvent::Closed => (awaiting_pong, ConnectionAction::Close),
        ConnectionEvent::ReceiveError => (awaiting_pong, ConnectionAction::Close),
        ConnectionEvent::Other => (awaiting_pong, ConnectionAction::Nothing),
    }
}

/// A client that never answers is closed at the second ping tick: after a
/// ping is sent, the next tick closes unless a pong came in between.
pub proof fn lemma_silent_client_closed_on_second_tick()
    ensures
        ({
            let first = on_connection_event_spec(false, ConnectionEvent::PingTick);
            let second = on_connection_event_spec(first.0, ConnectionEvent::PingTick);
            &&& first.1 == ConnectionAction::SendPing
            &&& second.1 == ConnectionAction::Close
        }),
        ({
            let first = on_connection_event_spec(false, ConnectionEvent::PingTick);
            let answered = on_connection_event_spec(first.0, ConnectionEvent::Pong);
            on_connection_event_spec(answered.0, ConnectionEvent::PingTick).1 == ConnectionAction::SendPing
        }),
{
}

/// The heartbeat decision as a function of the state and the event.
pub open spec fn on_connection_event_spec(awaiting_pong: bool, event: ConnectionEvent) -> (bool, ConnectionAction) {
    match event {
        ConnectionEvent::PingTick => if awaiting_pong {
            (true, ConnectionAction::Close)
        } else {
            (true, ConnectionAction::SendPing)
        },
        ConnectionEvent::PongTimeout => if awaiting_pong {
            (true, ConnectionAction::Close)
        } else {
            (false, ConnectionAction::Nothing)
        },
        ConnectionEvent::Broadcast => (awaiting_pong, ConnectionAction::Forward),
        ConnectionEvent::BroadcastLagged => (awaiting_pong, ConnectionAction::Nothing),
        ConnectionEvent::BroadcastClosed => (awaiting_pong, ConnectionAction::Close),
        ConnectionEvent::Pong => (false, ConnectionAction::ClearDeadline),
        ConnectionEvent::Text => (awaiting_pong, ConnectionAction::Nothing),
        ConnectionEvent::Closed => (awaiting_pong, ConnectionAction::Close),
        ConnectionEvent::ReceiveError => (awaiting_pong, ConnectionAction::Close),
        ConnectionEvent::Other => (awaiting_pong, ConnectionAction::Nothing),
    }
}

/// Before a board update is broadcast: it carries the grid of the previous
/// broadcast as its previous grid, and its own grid becomes the one to carry
/// next.
pub fn chain_board_update(board: &mut BoardState, last_grid: &mut Grid)
    ensures
        final(board).previous_grid@ == old(last_grid)@,
        final(last_grid)@ == old(board).grid@,
        final(board).grid@ == old(board).grid@,
        final(board).current_item == old(board).current_item,
        final(board).timestamp == old(board).timestamp,
        final(board).theme == old(board).theme,
        final(board).theme_colors == old(board).theme_colors,
{
    let mut carried = board.grid.clone();
    std::mem::swap(last_grid, &mut carried);
    board.previous_grid = carried;
}

} // verus!
