use vstd::prelude::*;

verus! {

/// State of the connection with the server.
#[derive(Clone, Copy, Debug, PartialEq, Eq, Structural)]
pub enum ConnectionState {
    Connected,
    Reconnecting,
    Lost,
}

impl Default for ConnectionState {
    /// A new connection starts out connected.
    fn default() -> (state: Self)
        ensures
            state == ConnectionState::Connected,
    {
        ConnectionState::Connected
    }
}

impl ConnectionState {
    /// The notice shown above the page errors for this state, if any.
    pub fn notice(&self) -> (notice: Option<&'static str>)
        ensures
            match *self {
                ConnectionState::Connected => notice is None,
                ConnectionState::Reconnecting => notice == Some("Connection to server lost. Reconnecting..."),
                ConnectionState::Lost => notice == Some("Connection to server lost."),
            },
    {
        match self {
            ConnectionState::Connected => None,
            ConnectionState::Reconnecting => Some("Connection to server lost. Reconnecting..."),
            ConnectionState::Lost => Some("Connection to server lost."),
        }
    }
}

} // verus!
