use vstd::prelude::*;

verus! {

/// A response of the daemon to a controller's command.
#[derive(Clone, Debug, PartialEq, Eq)]
pub enum CommandResponse {
    DeafenStatus { is_deafened: bool },
    MuteStatus { is_muted: bool },
    Pong,
    ServerConnect { welcome_message: Option<String> },
    ServerStatus { version: u32, users: u32, max_users: u32, bandwidth: u32 },
}

} // verus!
