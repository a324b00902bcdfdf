use vstd::prelude::*;
use mumble_protocol::voice::VoicePacketPayload;
use crate::audio::AudioCommand;
use crate::keys::Keys;
use crate::voice::VoiceStreamType;
use crate::audio::next_seq_num;
use crate::config::ServerSettings;
use crate::config::opt_view;

verus! {

/// The view of key material: (key, encrypt nonce, decrypt nonce).
pub type KeysView = (Seq<u8>, Seq<u8>, Seq<u8>);

/// What the control-channel receiver reads of a packet from the server.
pub enum ControlEvent {
    /// `CryptSetup`: the key material of the voice channel.
    CryptSetup(Keys),
    /// `ServerSync`: the server accepted the login.
    ServerSync,
    /// `Reject`: the server refused the login.
    Reject,
    /// `UserState`, with its session id if the message has one.
    UserState { session: Option<u32> },
    /// `UserRemove`, with its session id if the message has one.
    UserRemove { session: Option<u32> },
    /// Audio that the server tunnels through the control channel.
    TunnelAudio { session_id: u32, payload: VoicePacketPayload },
    /// A ping that the server tunnels through the control channel.
    TunnelPing,
    /// Any other packet (text messages, version, codec version, permission
    /// query, server config, channel state and removal, ping, and the rest):
    /// it is only logged.
    Other,
}

/// What the receiver task does after a packet.
pub enum TcpAction {
    /// Nothing beyond logging.
    Continue,
    /// Logged in: publish these keys to the voice channel and route voice
    /// through the control channel until the voice channel proves itself.
    LoggedIn(Keys),
    /// Hand this command to the audio decoder.
    Audio(AudioCommand),
}

/// The view of a [`TcpAction`].
pub enum TcpOutcome {
    Continue,
    LoggedIn(KeysView),
    Audio(AudioCommand),
}

/// The reasons for which the receiver gives up the connection.
#[derive(Clone, Copy, Debug, PartialEq, Eq, Structural)]
pub enum TcpError {
    /// A second `CryptSetup` arrived.
    SecondKey,
    /// `ServerSync` arrived before any `CryptSetup`.
    LoggedInBeforeKey,
    /// The server sent `Reject`.
    LoginRejected,
    /// A `UserState` without a session id.
    UserStateWithoutSession,
    /// A `UserRemove` without a session id.
    UserRemoveWithoutSession,
}

impl TcpAction {
    pub open spec fn outcome(self) -> TcpOutcome {
        match self {
            TcpAction::Continue => TcpOutcome::Continue,
            TcpAction::LoggedIn(k) => TcpOutcome::LoggedIn(k@),
            TcpAction::Audio(c) => TcpOutcome::Audio(c),
        }
    }
}

/// One step of the control-channel receiver: from the keys received so far
/// and a packet, the keys afterwards and what to do, or the error that ends
/// the connection.
pub open spec fn tcp_step(crypt: Option<KeysView>, event: ControlEvent) -> Result<(Option<KeysView>, TcpOutcome), TcpError> {
    match event {
        ControlEvent::CryptSetup(k) => if crypt is None {
            Ok((Some(k@), TcpOutcome::Continue))
        } else {
            Err(TcpError::SecondKey)
        },
        ControlEvent::ServerSync => match crypt {
            Some(k) => Ok((crypt, TcpOutcome::LoggedIn(k))),
            None => Err(TcpError::LoggedInBeforeKey),
        },
        ControlEvent::Reject => Err(TcpError::LoginRejected),
        ControlEvent::UserState { session } => match session {
            Some(s) => Ok((crypt, TcpOutcome::Audio(AudioCommand::AddClient(s)))),
            None => Err(TcpError::UserStateWithoutSession),
        },
        ControlEvent::UserRemove { session } => match session {
            Some(s) => Ok((crypt, TcpOutcome::Audio(AudioCommand::DelClient(s)))),
            None => Err(TcpError::UserRemoveWithoutSession),
        },
        ControlEvent::TunnelAudio { session_id, payload } => Ok(
            (crypt, TcpOutcome::Audio(AudioCommand::Voice(VoiceStreamType::TCP, session_id, payload))),
        ),
        ControlEvent::TunnelPing => Ok((crypt, TcpOutcome::Continue)),
        ControlEvent::Other => Ok((crypt, TcpOutcome::Continue)),
    }
}

/// The receiver run over a sequence of packets from a fresh connection: the
/// keys held at the end and one outcome per packet, or the first error.
pub open spec fn tcp_run(events: Seq<ControlEvent>) -> Result<(Option<KeysView>, Seq<TcpOutcome>), TcpError>
    decreases events.len(),
{
    if events.len() == 0 {
        Ok((None, Seq::empty()))
    } else {
        match tcp_run(events.drop_last()) {
            Ok((crypt, outs)) => match tcp_step(crypt, events.last()) {
                Ok((next, o)) => Ok((next, outs.push(o))),
                Err(e) => Err(e),
            },
            Err(e) => Err(e),
        }
    }
}

/// The key material that a packet carries, if it is a `CryptSetup`.
pub open spec fn carried_keys(event: ControlEvent) -> Option<KeysView> {
    match event {
        ControlEvent::CryptSetup(k) => Some(k@),
        _ => None,
    }
}

/// No packet before position `n` carries key material.
pub open spec fn no_key_before(events: Seq<ControlEvent>, n: int) -> bool {
    forall|i: int| 0 <= i < n ==> carried_keys(#[trigger] events[i]) is None
}

/// What a successful run keeps: one outcome per packet; keys held exactly
/// when a packet carried some; and every login outcome hands over the keys
/// of an earlier packet.
proof fn lemma_run_invariant(events: Seq<ControlEvent>)
    ensures
        tcp_run(events) matches Ok((crypt, outs)) ==> {
            &&& outs.len() == events.len()
            &&& (crypt is None <==> no_key_before(events, events.len() as int))
            &&& (crypt matches Some(kv) ==> exists|i: int|
                0 <= i < events.len() && #[trigger] carried_keys(events[i]) == Some(kv))
            &&& forall|j: int| 0 <= j < outs.len() && (#[trigger] outs[j] matches TcpOutcome::LoggedIn(kv))
                ==> exists|i: int| 0 <= i < j && #[trigger] carried_keys(events[i]) == Some(outs[j]->LoggedIn_0)
        },
    decreases events.len(),
{
    if events.len() > 0 {
        let prefix = events.drop_last();
        lemma_run_invariant(prefix);
        if let Ok((crypt, outs)) = tcp_run(events) {
            let (c0, o0) = tcp_run(prefix)->Ok_0;
            assert(forall|i: int| 0 <= i < prefix.len() ==> prefix[i] == events[i]);
            assert forall|j: int| 0 <= j < outs.len() && (#[trigger] outs[j] matches TcpOutcome::LoggedIn(kv))
                implies exists|i: int| 0 <= i < j && #[trigger] carried_keys(events[i]) == Some(outs[j]->LoggedIn_0) by {
                if j < o0.len() {
                    assert(outs[j] == o0[j]);
                    let i = choose|i: int| 0 <= i < j && #[trigger] carried_keys(prefix[i]) == Some(o0[j]->LoggedIn_0);
                    assert(carried_keys(events[i]) == Some(outs[j]->LoggedIn_0));
                } else {
                    let i = choose|i: int| 0 <= i < prefix.len() && #[trigger] carried_keys(prefix[i]) == c0;
                    assert(carried_keys(events[i]) == Some(outs[j]->LoggedIn_0));
                }
            }
            if crypt is None {
                assert forall|i: int| 0 <= i < events.len() implies carried_keys(#[trigger] events[i]) is None by {
                    if i < prefix.len() {
                        assert(carried_keys(prefix[i]) is None);
                    }
                }
            } else {
                if c0 is None {
                    assert(carried_keys(events[events.len() - 1]) == crypt);
                } else {
                    let i = choose|i: int| 0 <= i < prefix.len() && #[trigger] carried_keys(prefix[i]) == c0;
                    assert(carried_keys(events[i]) == crypt);
                    assert(!no_key_before(events, events.len() as int));
                }
            }
        }
    }
}

/// A failed prefix makes the whole run fail.
proof fn lemma_error_persists(events: Seq<ControlEvent>, n: int)
    requires
        0 <= n <= events.len(),
        tcp_run(events.take(n)) is Err,
    ensures
        tcp_run(events) is Err,
    decreases events.len(),
{
    if n < events.len() {
        assert(events.drop_last().take(n) == events.take(n));
        lemma_error_persists(events.drop_last(), n);
    } else {
        assert(events.take(n) == events);
    }
}

/// Each step keeps the keys once the receiver holds some: a successful step
/// from keys `k` leaves the receiver with `k`.
pub proof fn lemma_keys_kept(k: KeysView, event: ControlEvent)
    ensures
        tcp_step(Some(k), event) matches Ok((next, _)) ==> next == Some(k),
{
}

/// A successful run gives one outcome per packet.
pub proof fn lemma_one_outcome_per_packet(events: Seq<ControlEvent>)
    ensures
        tcp_run(events) matches Ok((_, outs)) ==> outs.len() == events.len(),
{
    lemma_run_invariant(events);
}

/// The server hands out key material once: a connection on which two
/// `CryptSetup` packets arrive fails.
pub proof fn lemma_second_key_fails(events: Seq<ControlEvent>, i: int, j: int)
    requires
        0 <= i < j < events.len(),
        events[i] is CryptSetup,
        events[j] is CryptSetup,
    ensures
        tcp_run(events) is Err,
{
    let prefix = events.take(j);
    let upto = events.take(j + 1);
    assert(upto.drop_last() == prefix);
    assert(upto.last() == events[j]);
    lemma_run_invariant(prefix);
    if let Ok((crypt, _)) = tcp_run(prefix) {
        assert(carried_keys(prefix[i]) is Some);
        assert(crypt is Some);
    }
    assert(tcp_run(upto) is Err);
    lemma_error_persists(events, j + 1);
}

/// A login before any key material fails: if `ServerSync` arrives while no
/// earlier packet was a `CryptSetup`, the connection fails.
pub proof fn lemma_login_needs_key(events: Seq<ControlEvent>, j: int)
    requires
        0 <= j < events.len(),
        events[j] is ServerSync,
        no_key_before(events, j),
    ensures
        tcp_run(events) is Err,
{
    let prefix = events.take(j);
    let upto = events.take(j + 1);
    assert(upto.drop_last() == prefix);
    assert(upto.last() == events[j]);
    lemma_run_invariant(prefix);
    if let Ok((crypt, _)) = tcp_run(prefix) {
        assert forall|i: int| 0 <= i < prefix.len() implies carried_keys(#[trigger] prefix[i]) is None by {
            assert(prefix[i] == events[i]);
        }
        assert(crypt is None);
    }
    assert(tcp_run(upto) is Err);
    lemma_error_persists(events, j + 1);
}

/// A user who joins, whenever that is, gets decoding streams: a
/// `UserState` with a session id always yields `AddClient` for that id and
/// leaves the keys as they were.
pub proof fn lemma_user_state_adds_client(crypt: Option<KeysView>, s: u32)
    ensures
        tcp_step(crypt, ControlEvent::UserState { session: Some(s) })
            == Ok::<(Option<KeysView>, TcpOutcome), TcpError>((crypt, TcpOutcome::Audio(AudioCommand::AddClient(s)))),
        tcp_step(crypt, ControlEvent::UserState { session: None }) == Err::<(Option<KeysView>, TcpOutcome), TcpError>(
            TcpError::UserStateWithoutSession),
{
}

/// A user who leaves, whenever that is, has its streams closed: a
/// `UserRemove` with a session id always yields `DelClient` for that id and
/// leaves the keys as they were.
pub proof fn lemma_user_remove_deletes_client(crypt: Option<KeysView>, s: u32)
    ensures
        tcp_step(crypt, ControlEvent::UserRemove { session: Some(s) })
            == Ok::<(Option<KeysView>, TcpOutcome), TcpError>((crypt, TcpOutcome::Audio(AudioCommand::DelClient(s)))),
        tcp_step(crypt, ControlEvent::UserRemove { session: None }) == Err::<(Option<KeysView>, TcpOutcome), TcpError>(
            TcpError::UserRemoveWithoutSession),
{
}

/// Audio tunnelled through the control channel always reaches the decoder
/// as received over TCP, from the same session and with the same payload,
/// whatever the keys.
pub proof fn lemma_tunnel_audio_is_tcp(crypt: Option<KeysView>, session_id: u32, payload: VoicePacketPayload)
    ensures
        tcp_step(crypt, ControlEvent::TunnelAudio { session_id, payload })
            == Ok::<(Option<KeysView>, TcpOutcome), TcpError>((
                crypt,
                TcpOutcome::Audio(AudioCommand::Voice(VoiceStreamType::TCP, session_id, payload)),
            )),
{
}

/// The key and login steps: the first `CryptSetup` stores its keys and
/// does nothing else, a later one fails; `ServerSync` hands over the keys
/// held, or fails without any; `Reject` always fails; tunnelled pings and
/// other packets change nothing.
pub proof fn lemma_key_and_login_steps(crypt: Option<KeysView>, k: Keys)
    ensures
        crypt is None ==> tcp_step(crypt, ControlEvent::CryptSetup(k))
            == Ok::<(Option<KeysView>, TcpOutcome), TcpError>((Some(k@), TcpOutcome::Continue)),
        crypt is Some ==> tcp_step(crypt, ControlEvent::CryptSetup(k))
            == Err::<(Option<KeysView>, TcpOutcome), TcpError>(TcpError::SecondKey),
        crypt matches Some(kv) ==> tcp_step(crypt, ControlEvent::ServerSync)
            == Ok::<(Option<KeysView>, TcpOutcome), TcpError>((crypt, TcpOutcome::LoggedIn(kv))),
        crypt is None ==> tcp_step(crypt, ControlEvent::ServerSync)
            == Err::<(Option<KeysView>, TcpOutcome), TcpError>(TcpError::LoggedInBeforeKey),
        tcp_step(crypt, ControlEvent::Reject) == Err::<(Option<KeysView>, TcpOutcome), TcpError>(TcpError::LoginRejected),
        tcp_step(crypt, ControlEvent::TunnelPing) == Ok::<(Option<KeysView>, TcpOutcome), TcpError>((crypt, TcpOutcome::Continue)),
        tcp_step(crypt, ControlEvent::Other) == Ok::<(Option<KeysView>, TcpOutcome), TcpError>((crypt, TcpOutcome::Continue)),
{
}

/// A refused login ends the connection: a run in which `Reject` arrives
/// fails.
pub proof fn lemma_reject_fails(events: Seq<ControlEvent>, j: int)
    requires
        0 <= j < events.len(),
        events[j] is Reject,
    ensures
        tcp_run(events) is Err,
{
    let upto = events.take(j + 1);
    assert(upto.drop_last() == events.take(j));
    assert(upto.last() == events[j]);
    assert(tcp_run(upto) is Err);
    lemma_error_persists(events, j + 1);
}

/// A login hands over the key material that an earlier `CryptSetup` carried.
pub proof fn lemma_login_hands_over_received_keys(events: Seq<ControlEvent>, j: int)
    requires
        tcp_run(events) is Ok,
        0 <= j < tcp_run(events)->Ok_0.1.len(),
        tcp_run(events)->Ok_0.1[j] is LoggedIn,
    ensures
        exists|i: int| 0 <= i < j && #[trigger] carried_keys(events[i]) == Some(tcp_run(events)->Ok_0.1[j]->LoggedIn_0),
{
    lemma_run_invariant(events);
}

/// The state of the control-channel receiver: the key material received so
/// far.
pub struct TcpReceiver {
    crypt: Option<Keys>,
}

impl View for TcpReceiver {
    type V = Option<KeysView>;

    closed spec fn view(&self) -> Option<KeysView> {
        match self.crypt {
            Some(k) => Some(k@),
            None => None,
        }
    }
}

impl TcpReceiver {
    /// A receiver for a fresh connection, which holds no key yet.
    pub fn new() -> (r: TcpReceiver)
        ensures
            r@ is None,
    {
        TcpReceiver { crypt: None }
    }

    /// Handles one packet from the server.
    pub fn receive(&mut self, event: ControlEvent) -> (r: Result<TcpAction, TcpError>)
        ensures
            match tcp_step(old(self)@, event) {
                Ok((next, o)) => r matches Ok(a) && a.outcome() == o && final(self)@ == next,
                Err(e) => r == Err::<TcpAction, TcpError>(e) && final(self)@ == old(self)@,
            },
    {
        match event {
            ControlEvent::CryptSetup(k) => {
                if self.crypt.is_none() {
                    self.crypt = Some(k);
                    Ok(TcpAction::Continue)
                } else {
                    Err(TcpError::SecondKey)
                }
            },
            ControlEvent::ServerSync => {
                match &self.crypt {
                    Some(k) => Ok(TcpAction::LoggedIn(k.duplicate())),
                    None => Err(TcpError::LoggedInBeforeKey),
                }
            },
            ControlEvent::Reject => Err(TcpError::LoginRejected),
            ControlEvent::UserState { session } => match session {
                Some(s) => Ok(TcpAction::Audio(AudioCommand::AddClient(s))),
                None => Err(TcpError::UserStateWithoutSession),
            },
            ControlEvent::UserRemove { session } => match session {
                Some(s) => Ok(TcpAction::Audio(AudioCommand::DelClient(s))),
                None => Err(TcpError::UserRemoveWithoutSession),
            },
            ControlEvent::TunnelAudio { session_id, payload } => Ok(
                TcpAction::Audio(AudioCommand::Voice(VoiceStreamType::TCP, session_id, payload)),
            ),
            ControlEvent::TunnelPing => Ok(TcpAction::Continue),
            ControlEvent::Other => Ok(TcpAction::Continue),
        }
    }
}

/// The control channel's ping task: the timestamp of the next ping.
pub struct TcpPingClock {
    timestamp: u64,
}

impl View for TcpPingClock {
    type V = u64;

    closed spec fn view(&self) -> u64 {
        self.timestamp
    }
}

impl TcpPingClock {
    /// A clock whose first ping carries timestamp 0.
    pub fn new() -> (c: TcpPingClock)
        ensures
            c@ == 0,
    {
        TcpPingClock { timestamp: 0 }
    }

    /// The timestamp for the ping sent now; the next ping carries the
    /// following one.
    pub fn tick(&mut self) -> (t: u64)
        ensures
            t == old(self)@,
            final(self)@ == next_seq_num(old(self)@),
    {
        let t = self.timestamp;
        self.timestamp = self.timestamp.wrapping_add(1);
        t
    }
}

/// The login request sent right after connecting.
pub struct AuthRequest {
    pub username: String,
    pub password: Option<String>,
    /// Whether the client announces Opus support.
    pub opus: bool,
}

/// The login request for the given settings: their user name, their
/// password if they have one, and Opus support.
pub fn authenticate(settings: &ServerSettings) -> (r: AuthRequest)
    ensures
        r.username@ == settings.username@,
        opt_view(r.password) == opt_view(settings.password),
        r.opus,
{
    let password = match &settings.password {
        Some(p) => Some(p.clone()),
        None => None,
    };
    AuthRequest { username: settings.username.clone(), password, opus: true }
}

} // verus!
