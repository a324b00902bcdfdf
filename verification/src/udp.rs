use vstd::prelude::*;
use mumble_protocol::voice::VoicePacketPayload;
use crate::audio::AudioCommand;
use crate::audio::next_seq_num;
use crate::voice::VoiceStreamType;

verus! {

/// The voice channel's ping task: the timestamp of the last ping sent.
pub struct UdpPinger {
    last_send: u64,
}

impl View for UdpPinger {
    type V = u64;

    closed spec fn view(&self) -> u64 {
        self.last_send
    }
}

/// The transport to use after a ping round: the voice channel only if its
/// answer echoes the latest ping; the control channel if the answer was
/// late (`None`) or echoes another ping.
pub open spec fn ping_verdict(last_send: u64, reply: Option<u64>) -> VoiceStreamType {
    match reply {
        Some(t) if t == last_send => VoiceStreamType::UDP,
        _ => VoiceStreamType::TCP,
    }
}

impl UdpPinger {
    /// A pinger that has sent nothing yet.
    pub fn new() -> (p: UdpPinger)
        ensures
            p@ == 0,
    {
        UdpPinger { last_send: 0 }
    }

    /// The timestamp of the next ping, which becomes the latest.
    pub fn next_ping(&mut self) -> (t: u64)
        ensures
            t == next_seq_num(old(self)@),
            final(self)@ == t,
    {
        self.last_send = self.last_send.wrapping_add(1);
        self.last_send
    }

    /// The transport to use, given the timestamp that the voice channel
    /// echoed back in time, or `None` if no answer came in time.
    pub fn verdict(&self, reply: Option<u64>) -> (s: VoiceStreamType)
        ensures
            s == ping_verdict(self@, reply),
    {
        match reply {
            Some(t) => if t == self.last_send {
                VoiceStreamType::UDP
            } else {
                VoiceStreamType::TCP
            },
            None => VoiceStreamType::TCP,
        }
    }
}

/// The voice channel is chosen exactly when the answer echoes the latest
/// ping sent.
pub proof fn lemma_udp_only_on_echo(last_send: u64, reply: Option<u64>)
    ensures
        ping_verdict(last_send, reply) == VoiceStreamType::UDP <==> reply == Some(last_send),
{
}

/// A packet decoded from the voice channel.
pub enum UdpEvent {
    /// The server's answer to a ping.
    Ping { timestamp: u64 },
    /// Audio of a user.
    Audio { session_id: u32, payload: VoicePacketPayload },
}

/// What the voice channel's receiver does with a packet.
pub enum UdpAction {
    /// Hand the echoed timestamp to the ping task.
    Pong(u64),
    /// Hand this command to the audio decoder.
    Audio(AudioCommand),
}

/// Routes a packet received on the voice channel: pings go to the ping task,
/// audio to the decoder, marked as received over UDP.
pub fn udp_receive(event: UdpEvent) -> (a: UdpAction)
    ensures
        match event {
            UdpEvent::Ping { timestamp } => a == UdpAction::Pong(timestamp),
            UdpEvent::Audio { session_id, payload } => a == UdpAction::Audio(
                AudioCommand::Voice(VoiceStreamType::UDP, session_id, payload),
            ),
        },
{
    match event {
        UdpEvent::Ping { timestamp } => UdpAction::Pong(timestamp),
        UdpEvent::Audio { session_id, payload } => UdpAction::Audio(
            AudioCommand::Voice(VoiceStreamType::UDP, session_id, payload),
        ),
    }
}

} // verus!
