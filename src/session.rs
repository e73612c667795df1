use vstd::prelude::*;
use vstd::string::StringSliceAdditionalSpecFns;
use crate::classifier::Route;
use crate::response::{NOT_FOUND, not_found, root_page, root_page_bytes};

verus! {

/// The bytes to send back for a routed request that is answered by a plain
/// HTTP response; `None` for an upgrade, which goes on to the handshake.
pub fn plain_response(route: &Route) -> (r: Option<Vec<u8>>)
    ensures
        match route {
            Route::Upgrade(_) => r is None,
            Route::RootPage => r matches Some(b) && b@ == root_page_bytes(),
            Route::NotFound => r matches Some(b) && b@ == NOT_FOUND.spec_bytes(),
        },
{
    match route {
        Route::Upgrade(_) => None,
        Route::RootPage => Some(root_page()),
        Route::NotFound => Some(not_found()),
    }
}

/// What an echo session does after asking for the next text message.
pub enum EchoAction {
    /// Send this text back as one complete text message.
    Reply(String),
    /// The peer closed the session: stop.
    Finish,
}

/// Decides the echo session's next action from the message just read, or
/// `None` once the peer has closed: the reply is the received text exactly.
pub fn echo_step(message: Option<&str>) -> (r: EchoAction)
    ensures
        match message {
            Some(text) => r matches EchoAction::Reply(reply) && reply@ == text@,
            None => r is Finish,
        },
{
    match message {
        Some(text) => EchoAction::Reply(text.to_owned()),
        None => EchoAction::Finish,
    }
}

} // verus!
