use vstd::prelude::*;
use mumble_protocol::voice::VoicePacketPayload;
use crate::voice::VoiceStreamType;

verus! {

#[verifier::external_type_specification]
#[verifier::external_body]
pub struct ExVoicePacketPayload(VoicePacketPayload);

/// `VoicePacketPayload::clone`, which `derive(Clone)` writes in
/// mumble_protocol: each variant is rebuilt from clones of its fields, so the
/// copy holds the same frames and flag as the value it was cloned from.
pub assume_specification[ <VoicePacketPayload as Clone>::clone ](payload: &VoicePacketPayload) -> (res: VoicePacketPayload)
    ensures
        res == *payload,
;

/// A request to the audio decoder task.
#[derive(Clone, Debug)]
pub enum AudioCommand {
    /// A user joined: open its decoding streams.
    AddClient(u32),
    /// A user left: close its decoding streams.
    DelClient(u32),
    /// Audio of a user, received over the given transport.
    Voice(VoiceStreamType, u32, VoicePacketPayload),
}


/// The sample rate that the audio streams are opened with, in Hz.
pub const SAMPLE_RATE: u32 = 48000;

/// Length of an encoded audio frame, in units of 2.5 ms.
pub const FRAME_SIZE: u32 = 4;

/// For how long after the last loud frame audio keeps being sent, in ms.
pub const SILENCE_HOLD_MS: u128 = 1000;

/// The number of samples per channel in one encoded frame at the given
/// sample rate: `FRAME_SIZE` units of 2.5 ms.
pub fn opus_frame_size(sample_rate: u32) -> (n: usize)
    requires
        FRAME_SIZE * sample_rate <= u32::MAX,
    ensures
        n == FRAME_SIZE * sample_rate / 400,
{
    (FRAME_SIZE * sample_rate / 400) as usize
}

/// The channel layouts that the voice encoder supports.
#[derive(Clone, Copy, Debug, PartialEq, Eq, Structural)]
pub enum EncoderChannels {
    Mono,
    Stereo,
}

/// The encoder's channel layout for an input device with the given number of
/// channels; only one or two channels are supported.
pub fn encoder_channels(channels: u16) -> (c: EncoderChannels)
    requires
        channels == 1 || channels == 2,
    ensures
        channels == 1 ==> c == EncoderChannels::Mono,
        channels == 2 ==> c == EncoderChannels::Stereo,
{
    if channels == 1 {
        EncoderChannels::Mono
    } else {
        EncoderChannels::Stereo
    }
}

/// The sequence number that follows `n`, wrapping around at `u64::MAX`.
pub open spec fn next_seq_num(n: u64) -> u64 {
    if n == u64::MAX {
        0
    } else {
        (n + 1) as u64
    }
}

/// The following sequence number is one more, modulo 2^64.
pub proof fn lemma_next_seq_num(n: u64)
    ensures
        next_seq_num(n) == (n + 1) % 0x1_0000_0000_0000_0000,
{
}

/// Where the encoder sends an encoded packet.
#[derive(Clone, Copy, Debug, PartialEq, Eq, Structural)]
pub enum VoiceRoute {
    /// Tunnelled through the control (TCP) channel.
    ControlTunnel,
    /// On the voice (UDP) channel.
    VoiceChannel,
}

/// The route the encoder takes for the voice transport currently selected:
/// with `UDP` selected it tunnels the packet through the control channel,
/// with `TCP` selected it hands it to the voice channel's sender.
pub open spec fn route_for(stream: VoiceStreamType) -> VoiceRoute {
    match stream {
        VoiceStreamType::UDP => VoiceRoute::ControlTunnel,
        VoiceStreamType::TCP => VoiceRoute::VoiceChannel,
    }
}

/// Whether a frame is encoded and sent: only once a transport is selected,
/// and only while there is sound or there was some within the hold time.
pub open spec fn transmits(stream: Option<VoiceStreamType>, loud: bool, ms_since_sound: u128) -> bool {
    stream is Some && (loud || ms_since_sound < SILENCE_HOLD_MS)
}

/// Frames are sent exactly when a transport is selected and the frame is
/// loud or comes less than 1000 ms after the last sound, whichever
/// transport that is; with UDP selected they are tunnelled through the
/// control channel, with TCP selected they go to the voice channel.
pub proof fn lemma_transmit_rule(stream: Option<VoiceStreamType>, loud: bool, ms_since_sound: u128)
    ensures
        transmits(stream, loud, ms_since_sound) <==> (stream is Some && (loud || ms_since_sound < 1000)),
        route_for(VoiceStreamType::UDP) == VoiceRoute::ControlTunnel,
        route_for(VoiceStreamType::TCP) == VoiceRoute::VoiceChannel,
{
}

/// What to do with a captured frame.
#[derive(Clone, Copy, Debug, PartialEq, Eq, Structural)]
pub enum EncoderAction {
    /// Drop it.
    Discard,
    /// Encode it and send it with this sequence number on this route.
    Send { seq_num: u64, route: VoiceRoute },
}

/// One decision of the encoder: from the next sequence number and a frame's
/// circumstances, the next sequence number and the action.
pub open spec fn encoder_step(seq_num: u64, stream: Option<VoiceStreamType>, loud: bool, ms_since_sound: u128) -> (u64, EncoderAction) {
    if transmits(stream, loud, ms_since_sound) {
        (next_seq_num(seq_num), EncoderAction::Send { seq_num, route: route_for(stream->0) })
    } else {
        (seq_num, EncoderAction::Discard)
    }
}

/// The encoder run over a sequence of frames, each given by the transport
/// selected, whether it is loud and the time since the last loud frame:
/// the final sequence number and one action per frame.
pub open spec fn encoder_run(seq_num: u64, frames: Seq<(Option<VoiceStreamType>, bool, u128)>) -> (u64, Seq<EncoderAction>)
    decreases frames.len(),
{
    if frames.len() == 0 {
        (seq_num, Seq::empty())
    } else {
        let (s, actions) = encoder_run(seq_num, frames.drop_last());
        let f = frames.last();
        let (s2, a) = encoder_step(s, f.0, f.1, f.2);
        (s2, actions.push(a))
    }
}

/// The number of packets sent among the first `n` actions.
pub open spec fn sends_before(actions: Seq<EncoderAction>, n: int) -> nat
    decreases n,
{
    if n <= 0 {
        0
    } else {
        sends_before(actions, n - 1) + if actions[n - 1] is Send { 1nat } else { 0nat }
    }
}

/// `seq_num` advanced by `n`, wrapping around at `u64::MAX`.
pub open spec fn advance(seq_num: u64, n: nat) -> u64 {
    ((seq_num + n) % 0x1_0000_0000_0000_0000) as u64
}

proof fn lemma_advance_next(seq_num: u64, n: nat)
    ensures
        next_seq_num(advance(seq_num, n)) == advance(seq_num, n + 1),
{
    assert(((seq_num + n) % 0x1_0000_0000_0000_0000 + 1) % 0x1_0000_0000_0000_0000
        == (seq_num + n + 1) % 0x1_0000_0000_0000_0000) by (nonlinear_arith);
}

/// Sent packets are numbered consecutively: over any sequence of frames,
/// the packet sent after `k` earlier packets carries the start number
/// advanced by `k`, and afterwards the number is advanced by the count of
/// packets sent.
pub proof fn lemma_consecutive_seq_nums(seq_num: u64, frames: Seq<(Option<VoiceStreamType>, bool, u128)>)
    ensures
        encoder_run(seq_num, frames).1.len() == frames.len(),
        encoder_run(seq_num, frames).0 == advance(seq_num, sends_before(encoder_run(seq_num, frames).1, frames.len() as int)),
        forall|i: int| 0 <= i < frames.len() && (#[trigger] encoder_run(seq_num, frames).1[i]) is Send
            ==> encoder_run(seq_num, frames).1[i]->Send_seq_num == advance(seq_num, sends_before(encoder_run(seq_num, frames).1, i)),
    decreases frames.len(),
{
    if frames.len() == 0 {
        assert(seq_num as int % 0x1_0000_0000_0000_0000 == seq_num);
    } else {
        let init = frames.drop_last();
        lemma_consecutive_seq_nums(seq_num, init);
        let (s, actions) = encoder_run(seq_num, init);
        let all = encoder_run(seq_num, frames).1;
        assert forall|j: int| 0 <= j <= actions.len() implies sends_before(all, j) == sends_before(actions, j) by {
            lemma_sends_before_prefix(actions, all, j);
        }
        lemma_advance_next(seq_num, sends_before(actions, actions.len() as int));
    }
}

proof fn lemma_sends_before_prefix(a: Seq<EncoderAction>, b: Seq<EncoderAction>, j: int)
    requires
        0 <= j <= a.len(),
        a.len() <= b.len(),
        forall|i: int| 0 <= i < a.len() ==> a[i] == b[i],
    ensures
        sends_before(a, j) == sends_before(b, j),
    decreases j,
{
    if j > 0 {
        lemma_sends_before_prefix(a, b, j - 1);
    }
}

/// An encoded audio packet for the server.
pub struct OutgoingAudio {
    /// The audio's target; 0 is normal speech.
    pub target: u8,
    pub seq_num: u64,
    /// One Opus frame.
    pub opus: Vec<u8>,
    pub end_of_transmission: bool,
    /// Positional audio data.
    pub position_info: Option<Vec<u8>>,
}

/// The packet that carries an encoded frame: normal speech, the given
/// sequence number, the Opus frame without the end-of-transmission bit, and
/// no position.
pub fn audio_packet(seq_num: u64, opus: Vec<u8>) -> (p: OutgoingAudio)
    ensures
        p.target == 0,
        p.seq_num == seq_num,
        p.opus@ == opus@,
        !p.end_of_transmission,
        p.position_info is None,
{
    OutgoingAudio { target: 0, seq_num, opus, end_of_transmission: false, position_info: None }
}

/// At the sample rate the streams are opened with, a frame holds 480
/// samples per channel.
pub proof fn lemma_frame_size_at_sample_rate()
    ensures
        FRAME_SIZE * SAMPLE_RATE / 400 == 480,
{
}

/// A frame that is sent gets the current number and advances it by one
/// (wrapping to 0 after `u64::MAX`); a frame that is dropped leaves it.
pub proof fn lemma_encoder_step_numbers(seq_num: u64, t: VoiceStreamType, loud: bool, ms_since_sound: u128)
    ensures
        (loud || ms_since_sound < 1000) ==> encoder_step(seq_num, Some(t), loud, ms_since_sound) == (
            (if seq_num == u64::MAX { 0u64 } else { (seq_num + 1) as u64 }),
            EncoderAction::Send { seq_num, route: route_for(t) },
        ),
        !(loud || ms_since_sound < 1000) ==> encoder_step(seq_num, Some(t), loud, ms_since_sound) == (seq_num, EncoderAction::Discard),
        encoder_step(seq_num, None, loud, ms_since_sound) == (seq_num, EncoderAction::Discard),
{
}

/// The encoder's state: the sequence number of the next packet.
pub struct EncoderState {
    pub seq_num: u64,
}

impl EncoderState {
    /// The state of a fresh encoder: packets are numbered from 0.
    pub fn new() -> (s: EncoderState)
        ensures
            s.seq_num == 0,
    {
        EncoderState { seq_num: 0 }
    }

    /// Decides what to do with a captured frame, given the transport currently
    /// selected (none before the connection is up), whether the frame is
    /// loud, and the time since the last loud frame (counting this one).
    pub fn on_frame(&mut self, stream: Option<VoiceStreamType>, loud: bool, ms_since_sound: u128) -> (a: EncoderAction)
        ensures
            (final(self).seq_num, a) == encoder_step(old(self).seq_num, stream, loud, ms_since_sound),
            transmits(stream, loud, ms_since_sound) ==> {
                &&& a == EncoderAction::Send { seq_num: old(self).seq_num, route: route_for(stream->0) }
                &&& final(self).seq_num == next_seq_num(old(self).seq_num)
            },
            !transmits(stream, loud, ms_since_sound) ==> {
                &&& a == EncoderAction::Discard
                &&& final(self).seq_num == old(self).seq_num
            },
    {
        match stream {
            None => EncoderAction::Discard,
            Some(t) => {
                if loud || ms_since_sound < SILENCE_HOLD_MS {
                    let route = match t {
                        VoiceStreamType::UDP => VoiceRoute::ControlTunnel,
                        VoiceStreamType::TCP => VoiceRoute::VoiceChannel,
                    };
                    let seq_num = self.seq_num;
                    self.seq_num = self.seq_num.wrapping_add(1);
                    EncoderAction::Send { seq_num, route }
                } else {
                    EncoderAction::Discard
                }
            },
        }
    }
}


/// One step of frame collection: with `pending` samples collected and frames
/// of `size` samples, adding `sample` hands out `pending` if it fills a frame.
pub open spec fn collect_step<T>(size: nat, pending: Seq<T>, sample: T) -> (Option<Seq<T>>, Seq<T>) {
    if pending.len() == size {
        (Some(pending), seq![sample])
    } else {
        (None, pending.push(sample))
    }
}

/// The frames handed out, and the samples left pending, after adding
/// `samples` one by one.
pub open spec fn collect<T>(size: nat, pending: Seq<T>, samples: Seq<T>) -> (Seq<Seq<T>>, Seq<T>)
    decreases samples.len(),
{
    if samples.len() == 0 {
        (Seq::empty(), pending)
    } else {
        let (frames, rest) = collect(size, pending, samples.drop_last());
        match collect_step(size, rest, samples.last()) {
            (Some(f), next) => (frames.push(f), next),
            (None, next) => (frames, next),
        }
    }
}

/// No sample is lost, duplicated or reordered: the frames handed out,
/// followed by the samples still pending, are the samples pending at the
/// start followed by the samples added; and every frame handed out holds
/// exactly `size` samples.
pub proof fn lemma_collect_keeps_samples<T>(size: nat, pending: Seq<T>, samples: Seq<T>)
    ensures
        collect(size, pending, samples).0.flatten() + collect(size, pending, samples).1 == pending + samples,
        forall|i: int| 0 <= i < collect(size, pending, samples).0.len()
            ==> (#[trigger] collect(size, pending, samples).0[i]).len() == size,
    decreases samples.len(),
{
    broadcast use Seq::lemma_flatten_push;
    if samples.len() > 0 {
        let init = samples.drop_last();
        lemma_collect_keeps_samples(size, pending, init);
        let (frames, rest) = collect(size, pending, init);
        assert(init.push(samples.last()) =~= samples);
        if rest.len() == size {
            assert(frames.push(rest).flatten() =~= frames.flatten() + rest);
            assert(frames.flatten() + rest + seq![samples.last()] =~= pending + samples);
            assert forall|i: int| 0 <= i < frames.push(rest).len() implies (#[trigger] frames.push(rest)[i]).len() == size by {
                if i < frames.len() {
                    assert(frames.push(rest)[i] == frames[i]);
                }
            }
        } else {
            let x = samples.last();
            assert(frames.flatten() + rest.push(x) =~= (frames.flatten() + rest).push(x));
            assert((pending + init).push(x) =~= pending + samples);
        }
    }
}

proof fn lemma_frame_count_step(f: int, p: int, size: int)
    requires
        size > 0,
        f >= 0,
        1 <= p <= size,
    ensures
        p == size ==> (f * size + p) / size == f + 1,
        p < size ==> (f * size + p) / size == f,
        (f * size + p - 1) / size == f,
{
    assert(p == size ==> f * size + p == (f + 1) * size) by (nonlinear_arith);
    assert(p == size ==> ((f + 1) * size) / size == f + 1) by (nonlinear_arith)
        requires size > 0;
    assert(0 <= p - 1 < size ==> (f * size + (p - 1)) / size == f) by (nonlinear_arith)
        requires size > 0, f >= 0;
    assert(0 <= p < size ==> (f * size + p) / size == f) by (nonlinear_arith)
        requires size > 0, f >= 0;
}

/// Which frames come out of a fresh collector: after `N` samples, frames of
/// `size > 0` samples, exactly `(N - 1) / size` of them (none for no
/// samples), the `k`-th being samples `k * size` up to `(k + 1) * size`;
/// the remaining samples stay pending, between one and `size` of them.
pub proof fn lemma_collect_frames<T>(size: nat, samples: Seq<T>)
    requires
        size > 0,
    ensures
        collect(size, Seq::empty(), samples).0.len() == (if samples.len() == 0 { 0 } else { (samples.len() - 1) as nat / size }),
        forall|k: int| 0 <= k < collect(size, Seq::empty(), samples).0.len()
            ==> #[trigger] collect(size, Seq::empty(), samples).0[k] == samples.subrange(k * size, (k + 1) * size),
        collect(size, Seq::empty(), samples).1 == samples.subrange(
            (collect(size, Seq::empty(), samples).0.len() * size) as int, samples.len() as int),
        samples.len() > 0 ==> 1 <= collect(size, Seq::empty(), samples).1.len() <= size,
    decreases samples.len(),
{
    let n = samples.len() as int;
    if n == 0 {
        assert(samples.subrange(0, 0) =~= Seq::<T>::empty());
    } else {
        let init = samples.drop_last();
        lemma_collect_frames(size, init);
        let (frames, rest) = collect(size, Seq::empty(), init);
        let f = frames.len() as int;
        let x = samples.last();
        assert forall|a: int, b: int| 0 <= a <= b <= n - 1 implies #[trigger] init.subrange(a, b) == samples.subrange(a, b) by {
            assert(init.subrange(a, b) =~= samples.subrange(a, b));
        }
        assert(f * size <= n - 1) by (nonlinear_arith)
            requires
                n - 1 == 0 ==> f == 0,
                n - 1 > 0 ==> f == (n - 2) / (size as int),
                size > 0,
                n >= 1,
        ;
        if n == 1 {
            assert(f == 0);
            assert(rest.len() == 0);
            assert(seq![x] =~= samples.subrange(0, 1));
        } else {
            lemma_frame_count_step(f, rest.len() as int, size as int);
            assert(f * size + rest.len() == n - 1);
            if rest.len() == size {
                assert(rest == samples.subrange(f * size, (f + 1) * size)) by {
                    assert((f + 1) * size == f * size + size) by (nonlinear_arith);
                }
                assert((f + 1) * size == n - 1) by (nonlinear_arith)
                    requires f * size + rest.len() == n - 1, rest.len() == size;
                assert(seq![x] =~= samples.subrange((f + 1) * size, n));
                assert forall|k: int| 0 <= k < f + 1 implies #[trigger] frames.push(rest)[k] == samples.subrange(k * size, (k + 1) * size) by {
                    if k < f {
                        assert(k * size <= (k + 1) * size <= f * size) by (nonlinear_arith)
                            requires 0 <= k < f, size > 0;
                        assert(frames.push(rest)[k] == frames[k]);
                    }
                }
            } else {
                assert(rest.push(x) =~= samples.subrange(f * size, n));
                assert forall|k: int| 0 <= k < f implies #[trigger] frames[k] == samples.subrange(k * size, (k + 1) * size) by {
                    assert(k * size <= (k + 1) * size <= f * size) by (nonlinear_arith)
                        requires 0 <= k < f, size > 0;
                }
            }
        }
    }
}

/// Collects captured samples into frames of a fixed number of samples. A
/// full frame is handed out when the next sample arrives.
pub struct FrameAccumulator<T> {
    size: usize,
    buffer: Vec<T>,
}

impl<T> FrameAccumulator<T> {
    /// The samples collected since the last frame was handed out.
    pub closed spec fn pending(&self) -> Seq<T> {
        self.buffer@
    }

    /// The number of samples in a frame.
    pub closed spec fn frame_len(&self) -> nat {
        self.size as nat
    }

    /// An empty accumulator for frames of `size` samples.
    pub fn new(size: usize) -> (a: FrameAccumulator<T>)
        ensures
            a.frame_len() == size,
            a.pending() == Seq::<T>::empty(),
    {
        FrameAccumulator { size, buffer: Vec::with_capacity(size) }
    }

    /// Adds a sample. If the pending samples already fill a frame, that frame
    /// is handed out and the sample starts the next one.
    pub fn push(&mut self, sample: T) -> (frame: Option<Vec<T>>)
        ensures
            final(self).frame_len() == old(self).frame_len(),
            collect_step(old(self).frame_len(), old(self).pending(), sample) == (
                match frame {
                    Some(f) => Some(f@),
                    None => None,
                },
                final(self).pending(),
            ),
            old(self).pending().len() == old(self).frame_len() ==> {
                &&& frame matches Some(f) && f@ == old(self).pending()
                &&& final(self).pending() == seq![sample]
            },
            old(self).pending().len() != old(self).frame_len() ==> {
                &&& frame is None
                &&& final(self).pending() == old(self).pending().push(sample)
            },
    {
        if self.buffer.len() == self.size {
            let mut full: Vec<T> = Vec::new();
            std::mem::swap(&mut full, &mut self.buffer);
            self.buffer.push(sample);
            assert(self.buffer@ =~= seq![sample]);
            Some(full)
        } else {
            self.buffer.push(sample);
            None
        }
    }
}


broadcast use vstd::std_specs::hash::group_hash_axioms;

/// The number that identifies a transport in a stream key.
pub open spec fn transport_index(kind: VoiceStreamType) -> u64 {
    match kind {
        VoiceStreamType::TCP => 0,
        VoiceStreamType::UDP => 1,
    }
}

/// The key under which the decoding stream of a user on a transport is kept.
pub open spec fn stream_key(kind: VoiceStreamType, id: u32) -> u64 {
    (transport_index(kind) * 0x1_0000_0000 + id) as u64
}

fn compute_stream_key(kind: VoiceStreamType, id: u32) -> (k: u64)
    ensures
        k == stream_key(kind, id),
{
    match kind {
        VoiceStreamType::TCP => id as u64,
        VoiceStreamType::UDP => 0x1_0000_0000u64 + id as u64,
    }
}

/// The user and transport whose stream is kept under key `k`, if any.
pub open spec fn decode_stream_key(k: u64) -> Option<(VoiceStreamType, u32)> {
    if k < 0x1_0000_0000 {
        Some((VoiceStreamType::TCP, k as u32))
    } else if k < 0x2_0000_0000 {
        Some((VoiceStreamType::UDP, (k - 0x1_0000_0000) as u32))
    } else {
        None
    }
}

fn compute_decode_stream_key(k: u64) -> (p: Option<(VoiceStreamType, u32)>)
    ensures
        p == decode_stream_key(k),
        p matches Some(q) ==> stream_key(q.0, q.1) == k,
{
    if k < 0x1_0000_0000 {
        Some((VoiceStreamType::TCP, k as u32))
    } else if k < 0x2_0000_0000 {
        Some((VoiceStreamType::UDP, (k - 0x1_0000_0000) as u32))
    } else {
        None
    }
}

proof fn lemma_decode_stream_key(a: (VoiceStreamType, u32))
    ensures
        decode_stream_key(stream_key(a.0, a.1)) == Some(a),
{
}

proof fn lemma_stream_key_injective()
    ensures
        forall|a: (VoiceStreamType, u32), b: (VoiceStreamType, u32)| #![auto]
            stream_key(a.0, a.1) == stream_key(b.0, b.1) ==> a == b,
{
}

/// Opening a user's streams and closing them again gives back the streams
/// there were before.
pub proof fn lemma_add_then_del_restores<S>(streams: Map<(VoiceStreamType, u32), S>, id: u32, udp: S, tcp: S)
    requires
        !streams.contains_key((VoiceStreamType::UDP, id)),
        !streams.contains_key((VoiceStreamType::TCP, id)),
    ensures
        streams.insert((VoiceStreamType::UDP, id), udp).insert((VoiceStreamType::TCP, id), tcp)
            .remove((VoiceStreamType::TCP, id)).remove((VoiceStreamType::UDP, id)) == streams,
{
    assert(streams.insert((VoiceStreamType::UDP, id), udp).insert((VoiceStreamType::TCP, id), tcp)
        .remove((VoiceStreamType::TCP, id)).remove((VoiceStreamType::UDP, id)) =~= streams);
}

/// Whether the decoder can take a command with streams open for the keys in
/// `open`: a joining user must have no stream yet, a leaving user and the
/// sender of audio must have theirs. On any other command the decoder panics.
pub open spec fn admits_command(open: Set<(VoiceStreamType, u32)>, cmd: AudioCommand) -> bool {
    match cmd {
        AudioCommand::AddClient(id) => !open.contains((VoiceStreamType::UDP, id)) && !open.contains(
            (VoiceStreamType::TCP, id),
        ),
        AudioCommand::DelClient(id) => open.contains((VoiceStreamType::TCP, id)) && open.contains(
            (VoiceStreamType::UDP, id),
        ),
        AudioCommand::Voice(kind, id, _) => open.contains((kind, id)),
    }
}

/// The keys with open streams after the decoder takes `cmd`, or `None` if it
/// panics on it.
pub open spec fn table_step(open: Set<(VoiceStreamType, u32)>, cmd: AudioCommand) -> Option<Set<(VoiceStreamType, u32)>> {
    if !admits_command(open, cmd) {
        None
    } else {
        match cmd {
            AudioCommand::AddClient(id) => Some(open.insert((VoiceStreamType::UDP, id)).insert((VoiceStreamType::TCP, id))),
            AudioCommand::DelClient(id) => Some(open.remove((VoiceStreamType::TCP, id)).remove((VoiceStreamType::UDP, id))),
            AudioCommand::Voice(_, _, _) => Some(open),
        }
    }
}

/// The decoder run over a sequence of commands from an empty table: the keys
/// with open streams at the end, or `None` if it panics on some command.
pub open spec fn table_run(cmds: Seq<AudioCommand>) -> Option<Set<(VoiceStreamType, u32)>>
    decreases cmds.len(),
{
    if cmds.len() == 0 {
        Some(Set::empty())
    } else {
        match table_run(cmds.drop_last()) {
            Some(open) => table_step(open, cmds.last()),
            None => None,
        }
    }
}

/// The users present after a sequence of commands: each `AddClient` adds
/// its user, each `DelClient` removes its user.
pub open spec fn live_after(cmds: Seq<AudioCommand>) -> Set<u32>
    decreases cmds.len(),
{
    if cmds.len() == 0 {
        Set::empty()
    } else {
        let live = live_after(cmds.drop_last());
        match cmds.last() {
            AudioCommand::AddClient(id) => live.insert(id),
            AudioCommand::DelClient(id) => live.remove(id),
            AudioCommand::Voice(_, _, _) => live,
        }
    }
}

/// Whether a command is in order with the users present: a user joins only
/// when absent, and leaves or sends audio only when present.
pub open spec fn command_in_order(live: Set<u32>, cmd: AudioCommand) -> bool {
    match cmd {
        AudioCommand::AddClient(id) => !live.contains(id),
        AudioCommand::DelClient(id) => live.contains(id),
        AudioCommand::Voice(_, id, _) => live.contains(id),
    }
}

/// Both transports' keys of the users in `live`.
pub open spec fn keys_of(live: Set<u32>) -> Set<(VoiceStreamType, u32)> {
    Set::new(|k: (VoiceStreamType, u32)| live.contains(k.1))
}

/// The decoder's run law: over any sequence of commands, the decoder panics
/// exactly when some command is out of order with the users present before
/// it; otherwise it takes every command, and the streams open at the end are
/// both transports' streams of the users present.
pub proof fn lemma_decoder_run(cmds: Seq<AudioCommand>)
    ensures
        table_run(cmds) is None <==> exists|i: int|
            0 <= i < cmds.len() && !command_in_order(live_after(cmds.take(i)), #[trigger] cmds[i]),
        table_run(cmds) matches Some(open) ==> open == keys_of(live_after(cmds)),
    decreases cmds.len(),
{
    if cmds.len() > 0 {
        let init = cmds.drop_last();
        let n = cmds.len() - 1;
        lemma_decoder_run(init);
        assert(cmds.take(n) == init);
        assert forall|i: int| 0 <= i < n implies #[trigger] cmds.take(i) == init.take(i) && cmds[i] == init[i] by {
            assert(cmds.take(i) =~= init.take(i));
        }
        if let Some(open) = table_run(init) {
            let live = live_after(init);
            let cmd = cmds.last();
            assert(admits_command(open, cmd) <==> command_in_order(live, cmd));
            if let Some(next) = table_step(open, cmd) {
                assert(open == keys_of(live));
                match cmd {
                    AudioCommand::AddClient(id) => {
                        assert(live_after(cmds) == live.insert(id));
                        assert forall|k: (VoiceStreamType, u32)| next.contains(k) <==> keys_of(live.insert(id)).contains(k) by {
                            match k.0 {
                                VoiceStreamType::TCP => {},
                                VoiceStreamType::UDP => {},
                            }
                        }
                        assert(next =~= keys_of(live.insert(id)));
                    },
                    AudioCommand::DelClient(id) => {
                        assert(live_after(cmds) == live.remove(id));
                        assert forall|k: (VoiceStreamType, u32)| next.contains(k) <==> keys_of(live.remove(id)).contains(k) by {
                            match k.0 {
                                VoiceStreamType::TCP => {},
                                VoiceStreamType::UDP => {},
                            }
                        }
                        assert(next =~= keys_of(live.remove(id)));
                    },
                    AudioCommand::Voice(_, _, _) => {
                        assert(live_after(cmds) == live);
                    },
                }
            } else {
                assert(!command_in_order(live_after(cmds.take(n)), cmds[n]));
            }
        }
    }
}

/// The audio decoder's decoding streams: one per user and transport.
pub struct ClientStreams<S> {
    streams: std::collections::HashMap<u64, S>,
}

impl<S> View for ClientStreams<S> {
    type V = Map<(VoiceStreamType, u32), S>;

    closed spec fn view(&self) -> Map<(VoiceStreamType, u32), S> {
        Map::new(
            |k: (VoiceStreamType, u32)| self.streams@.contains_key(stream_key(k.0, k.1)),
            |k: (VoiceStreamType, u32)| self.streams@[stream_key(k.0, k.1)],
        )
    }
}

impl<S> ClientStreams<S> {
    /// No streams.
    pub fn new() -> (c: ClientStreams<S>)
        ensures
            c@ == Map::<(VoiceStreamType, u32), S>::empty(),
    {
        let c = ClientStreams { streams: std::collections::HashMap::new() };
        assert(c@ =~= Map::<(VoiceStreamType, u32), S>::empty());
        c
    }

    /// Every user and transport with an open stream, each once, so that the
    /// playback side can mix all of them.
    pub fn stream_keys(&self) -> (keys: Vec<(VoiceStreamType, u32)>)
        ensures
            keys@.to_set() == self@.dom(),
            keys@.no_duplicates(),
    {
        let mut keys: Vec<(VoiceStreamType, u32)> = Vec::new();
        for k in it: self.streams.keys()
            invariant
                it.seq().unref().to_set() == self.streams@.dom(),
                it.seq().no_duplicates(),
                forall|j: int| 0 <= j < keys.len() ==> #[trigger] self@.dom().contains(keys@[j]),
                forall|j: int| 0 <= j < keys.len() ==> it.seq().unref().take(it.index()).contains(
                    stream_key((#[trigger] keys@[j]).0, keys@[j].1)),
                forall|i: int| 0 <= i < it.index() && (#[trigger] decode_stream_key(*it.seq()[i])) is Some
                    ==> keys@.contains(decode_stream_key(*it.seq()[i])->0),
                keys@.no_duplicates(),
                it.index() == it.seq().len() ==> forall|p: (VoiceStreamType, u32)| #[trigger] self@.dom().contains(p)
                    ==> keys@.contains(p),
        {
            proof {
                lemma_stream_key_injective();
                assert(it.seq().unref()[it.index()] == *k);
                assert(self.streams@.dom().contains(*k));
            }
            let ghost before = keys@;
            match compute_decode_stream_key(*k) {
                Some(p) => {
                    proof {
                        assert forall|j: int| 0 <= j < before.len() implies before[j] != p by {
                            let t = it.seq().unref().take(it.index());
                            let i = choose|i: int| 0 <= i < t.len() && t[i] == stream_key(before[j].0, before[j].1);
                            if before[j] == p {
                                assert(it.seq()[i] == it.seq()[it.index()]);
                            }
                        }
                    }
                    keys.push(p);
                    proof {
                        assert(keys@.last() == p);
                        assert(keys@.contains(p));
                        assert forall|j: int| 0 <= j < before.len() implies keys@[j] == before[j] by {}
                        assert(stream_key(p.0, p.1) == *it.seq()[it.index()]);
                        assert forall|j: int| 0 <= j < keys.len() implies it.seq().unref().take(it.index() + 1).contains(
                            stream_key((#[trigger] keys@[j]).0, keys@[j].1)) by {
                            let t1 = it.seq().unref().take(it.index() + 1);
                            let t0 = it.seq().unref().take(it.index());
                            if j == before.len() {
                                assert(keys@[j] == p);
                                assert(t1[it.index()] == stream_key(p.0, p.1));
                            } else {
                                assert(keys@[j] == before[j]);
                                let i = choose|i: int| 0 <= i < t0.len() && t0[i] == stream_key(before[j].0, before[j].1);
                                assert(t1[i] == t0[i]);
                            }
                        }
                    }
                },
                None => {},
            }
            proof {
                assert(decode_stream_key(*k) is Some ==> keys@.contains(decode_stream_key(*k)->0));
                assert forall|p: (VoiceStreamType, u32)| it.index() + 1 == it.seq().len()
                    && #[trigger] self@.dom().contains(p) implies keys@.contains(p) by {
                    lemma_decode_stream_key(p);
                    assert(it.seq().unref().to_set().contains(stream_key(p.0, p.1)));
                    let i = choose|i: int| 0 <= i < it.seq().unref().len() && it.seq().unref()[i] == stream_key(p.0, p.1);
                    assert(*it.seq()[i] == stream_key(p.0, p.1));
                    assert(decode_stream_key(*it.seq()[i]) == Some(p));
                }
            }
        }
        proof {
            lemma_stream_key_injective();
            assert(keys@.to_set() =~= self@.dom());
        }
        keys
    }

    /// Whether the decoder can take `cmd` with the streams now open.
    pub fn admits(&self, cmd: &AudioCommand) -> (b: bool)
        ensures
            b == admits_command(self@.dom(), *cmd),
    {
        match cmd {
            AudioCommand::AddClient(id) => !self.contains(VoiceStreamType::UDP, *id) && !self.contains(VoiceStreamType::TCP, *id),
            AudioCommand::DelClient(id) => self.contains(VoiceStreamType::TCP, *id) && self.contains(VoiceStreamType::UDP, *id),
            AudioCommand::Voice(kind, id, _) => self.contains(*kind, *id),
        }
    }

    /// Whether the user `id` has a stream on transport `kind`.
    pub fn contains(&self, kind: VoiceStreamType, id: u32) -> (b: bool)
        ensures
            b == self@.contains_key((kind, id)),
    {
        let key = compute_stream_key(kind, id);
        self.streams.contains_key(&key)
    }

    /// Opens the streams of a user who joined: `udp` for its audio over the
    /// voice channel and `tcp` for its audio tunnelled through the control
    /// channel. The user must not have streams yet.
    pub fn add_client(&mut self, id: u32, udp: S, tcp: S)
        requires
            !old(self)@.contains_key((VoiceStreamType::UDP, id)),
            !old(self)@.contains_key((VoiceStreamType::TCP, id)),
        ensures
            final(self)@ == old(self)@.insert((VoiceStreamType::UDP, id), udp).insert((VoiceStreamType::TCP, id), tcp),
    {
        let ghost before = self@;
        let ku = compute_stream_key(VoiceStreamType::UDP, id);
        let kt = compute_stream_key(VoiceStreamType::TCP, id);
        self.streams.insert(ku, udp);
        self.streams.insert(kt, tcp);
        proof { lemma_stream_key_injective(); }
        assert(self@ =~= before.insert((VoiceStreamType::UDP, id), udp).insert((VoiceStreamType::TCP, id), tcp));
    }

    /// The stream of user `id` on transport `kind`, to decode its audio
    /// into. The user must have one.
    pub fn stream_mut(&mut self, kind: VoiceStreamType, id: u32) -> (s: &mut S)
        requires
            old(self)@.contains_key((kind, id)),
        ensures
            *s == old(self)@[(kind, id)],
            final(self)@ == old(self)@.insert((kind, id), *final(s)),
    {
        let ghost before = self@;
        let key = compute_stream_key(kind, id);
        match self.streams.entry(key) {
            std::collections::hash_map::Entry::Occupied(e) => {
                let r = e.into_mut();
                proof { lemma_stream_key_injective(); }
                r
            },
            std::collections::hash_map::Entry::Vacant(_) => {
                vstd::pervasive::unreached()
            },
        }
    }

    /// Closes both streams of a user who left. The user must have them.
    pub fn del_client(&mut self, id: u32)
        requires
            old(self)@.contains_key((VoiceStreamType::UDP, id)),
            old(self)@.contains_key((VoiceStreamType::TCP, id)),
        ensures
            final(self)@ == old(self)@.remove((VoiceStreamType::TCP, id)).remove((VoiceStreamType::UDP, id)),
    {
        let ghost before = self@;
        let kt = compute_stream_key(VoiceStreamType::TCP, id);
        let ku = compute_stream_key(VoiceStreamType::UDP, id);
        self.streams.remove(&kt);
        self.streams.remove(&ku);
        proof { lemma_stream_key_injective(); }
        assert(self@ =~= before.remove((VoiceStreamType::TCP, id)).remove((VoiceStreamType::UDP, id)));
    }
}

} // verus!
