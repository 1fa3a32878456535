//! What the sessions tell the host shell.

use vstd::prelude::*;
use crate::frame::ScreenFrame;

verus! {

/// A notification for the host shell.
#[derive(Clone, Debug, PartialEq, Eq)]
pub enum Notification {
    /// The capture loop has seen that sharing stopped.
    SharingStopped,
    /// A viewer connected; the text is its remote address.
    ClientConnected(String),
    /// The viewing session connected (`true`) or disconnected (`false`).
    ConnectionStatus(bool),
    /// A frame arrived from the presenter.
    ScreenFrame(ScreenFrame),
}

/// The name under which a notification is emitted.
pub open spec fn event_name(n: Notification) -> Seq<char> {
    match n {
        Notification::SharingStopped => "sharing-stopped"@,
        Notification::ClientConnected(_) => "client-connected"@,
        Notification::ConnectionStatus(_) => "connection-status"@,
        Notification::ScreenFrame(_) => "screen-frame"@,
    }
}

/// The payload of a connection status notification.
pub open spec fn status_text(connected: bool) -> Seq<char> {
    if connected {
        "connected"@
    } else {
        "disconnected"@
    }
}

impl Notification {
    /// The name under which this notification is emitted.
    pub fn name(&self) -> (name: String)
        ensures
            name@ == event_name(*self),
    {
        match self {
            Notification::SharingStopped => "sharing-stopped".to_owned(),
            Notification::ClientConnected(_) => "client-connected".to_owned(),
            Notification::ConnectionStatus(_) => "connection-status".to_owned(),
            Notification::ScreenFrame(_) => "screen-frame".to_owned(),
        }
    }
}

/// The payload of a connection status notification: `"connected"` or
/// `"disconnected"`.
pub fn connection_status(connected: bool) -> (text: String)
    ensures
        text@ == status_text(connected),
{
    if connected {
        "connected".to_owned()
    } else {
        "disconnected".to_owned()
    }
}

} // verus!
