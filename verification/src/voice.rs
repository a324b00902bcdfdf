use vstd::prelude::*;

verus! {

/// The transport that carries voice packets to and from the server.
#[derive(Clone, Copy, Debug, PartialEq, Eq, Hash, Structural)]
pub enum VoiceStreamType {
    TCP,
    UDP,
}

} // verus!
