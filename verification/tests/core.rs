use mumble_protocol::voice::VoicePacketPayload;
use mumd::audio::{
    audio_packet, encoder_channels, opus_frame_size, AudioCommand, ClientStreams, EncoderAction, EncoderChannels,
    EncoderState, FrameAccumulator, VoiceRoute, SAMPLE_RATE,
};
use mumd::command::CommandResponse;
use mumd::config::{
    get_cfg_path, user_config_path, FileSettings, ServerSettings, DEFAULT_CHECK_CERT, DEFAULT_PORT,
    DEFAULT_USERNAME, SYSTEM_CONFIG_PATH,
};
use mumd::error::{
    decimal_string, level_color, level_label, message_separator, ChannelIdentifierError, Error,
    LogColor, LogLevel,
};
use mumd::keys::{KeyFormatError, Keys};
use mumd::tcp::{authenticate, ControlEvent, TcpAction, TcpError, TcpPingClock, TcpReceiver};
use mumd::udp::{udp_receive, UdpAction, UdpEvent, UdpPinger};
use mumd::voice::VoiceStreamType;

fn block_keys() -> Keys {
    Keys::new(vec![1u8; 16], vec![2u8; 16], vec![3u8; 16])
}

fn opus(bytes: Vec<u8>) -> VoicePacketPayload {
    VoicePacketPayload::Opus(bytes.into(), false)
}

// ---- keys ----

#[test]
fn keys_of_block_length_convert() {
    let r = block_keys().try_into();
    assert_eq!(r, Ok(([1u8; 16], [2u8; 16], [3u8; 16])));
}

#[test]
fn keys_keep_nonce_order() {
    let mut key = vec![0u8; 16];
    key[15] = 9;
    let mut client = vec![0u8; 16];
    client[0] = 7;
    let server: Vec<u8> = (0u8..16).collect();
    let (k, e, d) = Keys::new(key.clone(), client.clone(), server.clone()).try_into().unwrap();
    assert_eq!(k.to_vec(), key);
    assert_eq!(e.to_vec(), client);
    assert_eq!(d.to_vec(), server);
}

#[test]
fn keys_with_short_key_are_refused() {
    let r = Keys::new(vec![1u8; 15], vec![2u8; 16], vec![3u8; 16]).try_into();
    assert_eq!(r, Err(KeyFormatError::InvalidKeyFormat));
}

#[test]
fn keys_with_long_nonce_are_refused() {
    let r = Keys::new(vec![1u8; 16], vec![2u8; 16], vec![3u8; 17]).try_into();
    assert_eq!(r, Err(KeyFormatError::InvalidKeyFormat));
    let r = Keys::new(vec![1u8; 16], vec![], vec![3u8; 16]).try_into();
    assert_eq!(r, Err(KeyFormatError::InvalidKeyFormat));
}

// ---- control channel receiver ----

#[test]
fn login_hands_over_received_keys() {
    let mut r = TcpReceiver::new();
    assert!(matches!(r.receive(ControlEvent::CryptSetup(block_keys())), Ok(TcpAction::Continue)));
    match r.receive(ControlEvent::ServerSync) {
        Ok(TcpAction::LoggedIn(k)) => assert_eq!(k, block_keys()),
        _ => panic!("expected a login"),
    }
    // the keys stay with the receiver
    assert!(matches!(r.receive(ControlEvent::ServerSync), Ok(TcpAction::LoggedIn(_))));
}

#[test]
fn second_key_is_an_error() {
    let mut r = TcpReceiver::new();
    assert!(r.receive(ControlEvent::CryptSetup(block_keys())).is_ok());
    assert!(matches!(
        r.receive(ControlEvent::CryptSetup(block_keys())),
        Err(TcpError::SecondKey)
    ));
}

#[test]
fn login_before_key_is_an_error() {
    let mut r = TcpReceiver::new();
    assert!(matches!(r.receive(ControlEvent::Other), Ok(TcpAction::Continue)));
    assert!(matches!(r.receive(ControlEvent::ServerSync), Err(TcpError::LoggedInBeforeKey)));
}

#[test]
fn reject_is_an_error() {
    let mut r = TcpReceiver::new();
    assert!(matches!(r.receive(ControlEvent::Reject), Err(TcpError::LoginRejected)));
}

#[test]
fn user_state_adds_client() {
    let mut r = TcpReceiver::new();
    assert!(matches!(
        r.receive(ControlEvent::UserState { session: Some(42) }),
        Ok(TcpAction::Audio(AudioCommand::AddClient(42)))
    ));
    assert!(matches!(
        r.receive(ControlEvent::UserState { session: None }),
        Err(TcpError::UserStateWithoutSession)
    ));
}

#[test]
fn user_remove_deletes_client() {
    let mut r = TcpReceiver::new();
    assert!(matches!(
        r.receive(ControlEvent::UserRemove { session: Some(7) }),
        Ok(TcpAction::Audio(AudioCommand::DelClient(7)))
    ));
    assert!(matches!(
        r.receive(ControlEvent::UserRemove { session: None }),
        Err(TcpError::UserRemoveWithoutSession)
    ));
}

#[test]
fn tunnelled_audio_is_marked_tcp() {
    let mut r = TcpReceiver::new();
    let ev = ControlEvent::TunnelAudio { session_id: 3, payload: opus(vec![9, 8, 7]) };
    match r.receive(ev) {
        Ok(TcpAction::Audio(AudioCommand::Voice(VoiceStreamType::TCP, 3, p))) => {
            assert_eq!(p, opus(vec![9, 8, 7]))
        }
        _ => panic!("expected tunnelled audio"),
    }
    assert!(matches!(r.receive(ControlEvent::TunnelPing), Ok(TcpAction::Continue)));
}

#[test]
fn audio_command_clone_keeps_payload() {
    let c = AudioCommand::Voice(VoiceStreamType::UDP, 5, opus(vec![1, 2, 3]));
    match c.clone() {
        AudioCommand::Voice(VoiceStreamType::UDP, 5, p) => assert_eq!(p, opus(vec![1, 2, 3])),
        _ => panic!("clone changed the command"),
    }
}

#[test]
fn tcp_ping_timestamps_count_from_zero() {
    let mut c = TcpPingClock::new();
    assert_eq!(c.tick(), 0);
    assert_eq!(c.tick(), 1);
    assert_eq!(c.tick(), 2);
}

#[test]
fn authenticate_copies_credentials() {
    let s = ServerSettings {
        host: "h".to_string(),
        port: 1,
        channel: None,
        username: "alice".to_string(),
        password: Some("secret".to_string()),
        check_cert: true,
    };
    let a = authenticate(&s);
    assert_eq!(a.username, "alice");
    assert_eq!(a.password, Some("secret".to_string()));
    assert!(a.opus);
}

// ---- voice channel ----

#[test]
fn udp_pings_count_from_one() {
    let mut p = UdpPinger::new();
    assert_eq!(p.next_ping(), 1);
    assert_eq!(p.next_ping(), 2);
}

#[test]
fn udp_chosen_only_on_echo_of_latest_ping() {
    let mut p = UdpPinger::new();
    let t = p.next_ping();
    assert_eq!(p.verdict(Some(t)), VoiceStreamType::UDP);
    assert_eq!(p.verdict(Some(t + 5)), VoiceStreamType::TCP);
    assert_eq!(p.verdict(None), VoiceStreamType::TCP);
    let t2 = p.next_ping();
    assert_eq!(p.verdict(Some(t)), VoiceStreamType::TCP);
    assert_eq!(p.verdict(Some(t2)), VoiceStreamType::UDP);
}

#[test]
fn udp_packets_are_routed() {
    assert!(matches!(udp_receive(UdpEvent::Ping { timestamp: 77 }), UdpAction::Pong(77)));
    match udp_receive(UdpEvent::Audio { session_id: 9, payload: opus(vec![4]) }) {
        UdpAction::Audio(AudioCommand::Voice(VoiceStreamType::UDP, 9, p)) => {
            assert_eq!(p, opus(vec![4]))
        }
        _ => panic!("expected audio"),
    }
}

// ---- audio ----

#[test]
fn frame_size_at_48khz() {
    assert_eq!(opus_frame_size(SAMPLE_RATE), 480);
    assert_eq!(opus_frame_size(44100), 441);
    assert_eq!(opus_frame_size(0), 0);
}

#[test]
fn channel_layouts() {
    assert_eq!(encoder_channels(1), EncoderChannels::Mono);
    assert_eq!(encoder_channels(2), EncoderChannels::Stereo);
}

#[test]
fn encoder_discards_before_connection() {
    let mut e = EncoderState::new();
    assert_eq!(e.on_frame(None, true, 0), EncoderAction::Discard);
    assert_eq!(e.seq_num, 0);
}

#[test]
fn encoder_routes_and_numbers_packets() {
    let mut e = EncoderState::new();
    assert_eq!(
        e.on_frame(Some(VoiceStreamType::UDP), true, 0),
        EncoderAction::Send { seq_num: 0, route: VoiceRoute::ControlTunnel }
    );
    assert_eq!(
        e.on_frame(Some(VoiceStreamType::TCP), false, 999),
        EncoderAction::Send { seq_num: 1, route: VoiceRoute::VoiceChannel }
    );
    assert_eq!(e.on_frame(Some(VoiceStreamType::TCP), false, 1000), EncoderAction::Discard);
    assert_eq!(
        e.on_frame(Some(VoiceStreamType::TCP), true, 1000),
        EncoderAction::Send { seq_num: 2, route: VoiceRoute::VoiceChannel }
    );
    assert_eq!(e.seq_num, 3);
}

#[test]
fn encoder_sequence_wraps() {
    let mut e = EncoderState { seq_num: u64::MAX };
    assert_eq!(
        e.on_frame(Some(VoiceStreamType::UDP), true, 0),
        EncoderAction::Send { seq_num: u64::MAX, route: VoiceRoute::ControlTunnel }
    );
    assert_eq!(e.seq_num, 0);
}

#[test]
fn frames_keep_samples_in_order() {
    let mut acc = FrameAccumulator::new(3);
    let mut frames = Vec::new();
    for s in 1..=8 {
        if let Some(f) = acc.push(s) {
            frames.push(f);
        }
    }
    assert_eq!(frames, vec![vec![1, 2, 3], vec![4, 5, 6]]);
    // the frame filled by 7, 8 and 9 is handed out with sample 10
    assert_eq!(acc.push(9), None);
    assert_eq!(acc.push(10), Some(vec![7, 8, 9]));
}

#[test]
fn zero_sized_frames() {
    let mut acc = FrameAccumulator::new(0);
    assert_eq!(acc.push(1), Some(vec![]));
    assert_eq!(acc.push(2), None);
    assert_eq!(acc.push(3), None);
}

#[test]
fn client_streams_open_and_close() {
    let mut s: ClientStreams<Vec<u8>> = ClientStreams::new();
    assert!(!s.contains(VoiceStreamType::UDP, 4));
    s.add_client(4, vec![1], vec![2]);
    assert!(s.contains(VoiceStreamType::UDP, 4));
    assert!(s.contains(VoiceStreamType::TCP, 4));
    assert!(!s.contains(VoiceStreamType::TCP, 5));
    assert_eq!(*s.stream_mut(VoiceStreamType::UDP, 4), vec![1]);
    s.stream_mut(VoiceStreamType::TCP, 4).push(3);
    assert_eq!(*s.stream_mut(VoiceStreamType::TCP, 4), vec![2, 3]);
    assert_eq!(*s.stream_mut(VoiceStreamType::UDP, 4), vec![1]);
    s.add_client(5, vec![5], vec![6]);
    s.del_client(4);
    assert!(!s.contains(VoiceStreamType::UDP, 4));
    assert!(!s.contains(VoiceStreamType::TCP, 4));
    assert!(s.contains(VoiceStreamType::UDP, 5));
}

#[test]
fn client_streams_keep_large_ids_apart() {
    let mut s: ClientStreams<u32> = ClientStreams::new();
    s.add_client(u32::MAX, 1, 2);
    s.add_client(0, 3, 4);
    assert_eq!(*s.stream_mut(VoiceStreamType::UDP, u32::MAX), 1);
    assert_eq!(*s.stream_mut(VoiceStreamType::TCP, u32::MAX), 2);
    assert_eq!(*s.stream_mut(VoiceStreamType::UDP, 0), 3);
    assert_eq!(*s.stream_mut(VoiceStreamType::TCP, 0), 4);
}

// ---- messages ----

#[test]
fn error_messages() {
    assert_eq!(Error::DisconnectedError.message(), "Not connected to a server");
    assert_eq!(Error::AlreadyConnectedError.message(), "Already connected to a server");
    assert_eq!(
        Error::ChannelIdentifierError("lobby".to_string(), ChannelIdentifierError::Invalid).message(),
        "Invalid channel identifier: lobby"
    );
    assert_eq!(
        Error::ChannelIdentifierError("a".to_string(), ChannelIdentifierError::Ambiguous).message(),
        "Ambiguous channel identifier: a"
    );
    assert_eq!(
        Error::InvalidServerAddrError("example.org".to_string(), 64738).message(),
        "Invalid server address: example.org: 64738"
    );
    assert_eq!(Error::InvalidUsernameError("bob".to_string()).message(), "Invalid username: bob");
}

#[test]
fn decimal_strings() {
    assert_eq!(decimal_string(0), "0");
    assert_eq!(decimal_string(7), "7");
    assert_eq!(decimal_string(10), "10");
    assert_eq!(decimal_string(1005), "1005");
    assert_eq!(decimal_string(u16::MAX), "65535");
}

#[test]
fn log_labels() {
    assert_eq!(level_label(LogLevel::Error), "ERROR");
    assert_eq!(level_label(LogLevel::Warn), "WARN ");
    assert_eq!(level_label(LogLevel::Info), "INFO ");
    assert_eq!(level_label(LogLevel::Debug), "DEBUG");
    assert_eq!(level_label(LogLevel::Trace), "TRACE");
}

#[test]
fn log_separator() {
    assert_eq!(message_separator("one line"), " ");
    assert_eq!(message_separator(""), " ");
    assert_eq!(message_separator("two\nlines"), "\n");
    assert_eq!(message_separator("ünïcode\n"), "\n");
}

// ---- configuration ----

#[test]
fn settings_defaults() {
    let s = ServerSettings::from_file(FileSettings {
        host: "example.org".to_string(),
        port: None,
        channel: None,
        username: None,
        password: None,
        check_cert: None,
    });
    assert_eq!(s.host, "example.org");
    assert_eq!(s.port, DEFAULT_PORT);
    assert_eq!(s.port, 64738);
    assert_eq!(s.username, DEFAULT_USERNAME);
    assert_eq!(s.username, "mymumd");
    assert_eq!(s.check_cert, DEFAULT_CHECK_CERT);
    assert!(s.check_cert);
    assert_eq!(s.channel, None);
    assert_eq!(s.password, None);
}

#[test]
fn settings_given_values_win() {
    let s = ServerSettings::from_file(FileSettings {
        host: "h".to_string(),
        port: Some(1234),
        channel: Some("c".to_string()),
        username: Some("u".to_string()),
        password: Some("p".to_string()),
        check_cert: Some(false),
    });
    assert_eq!(s.port, 1234);
    assert_eq!(s.channel, Some("c".to_string()));
    assert_eq!(s.username, "u");
    assert_eq!(s.password, Some("p".to_string()));
    assert!(!s.check_cert);
}

#[test]
fn user_config_paths() {
    assert_eq!(user_config_path(Some("/x"), Some("/home/u")), Some("/x/mymumdrc".to_string()));
    assert_eq!(user_config_path(None, Some("/home/u")), Some("/home/u/.config/mymumdrc".to_string()));
    assert_eq!(user_config_path(None, None), None);
}

#[test]
fn config_path_choice() {
    assert_eq!(get_cfg_path(Some("/x/mymumdrc".to_string()), true), "/x/mymumdrc");
    assert_eq!(get_cfg_path(Some("/x/mymumdrc".to_string()), false), SYSTEM_CONFIG_PATH);
    assert_eq!(get_cfg_path(None, false), "/etc/mymumdrc");
}

#[test]
fn command_responses_compare() {
    assert_eq!(CommandResponse::Pong, CommandResponse::Pong);
    assert_ne!(
        CommandResponse::MuteStatus { is_muted: true },
        CommandResponse::MuteStatus { is_muted: false }
    );
}

#[test]
fn client_streams_list_their_keys() {
    let mut s: ClientStreams<u8> = ClientStreams::new();
    assert!(s.stream_keys().is_empty());
    s.add_client(4, 1, 2);
    s.add_client(u32::MAX, 3, 4);
    let mut keys = s.stream_keys();
    keys.sort_by_key(|k| (k.1, k.0 == VoiceStreamType::UDP));
    assert_eq!(
        keys,
        vec![
            (VoiceStreamType::TCP, 4),
            (VoiceStreamType::UDP, 4),
            (VoiceStreamType::TCP, u32::MAX),
            (VoiceStreamType::UDP, u32::MAX),
        ]
    );
    s.del_client(4);
    assert_eq!(s.stream_keys().len(), 2);
}

#[test]
fn decoder_admits_commands_in_order() {
    let mut s: ClientStreams<u8> = ClientStreams::new();
    assert!(s.admits(&AudioCommand::AddClient(1)));
    assert!(!s.admits(&AudioCommand::DelClient(1)));
    assert!(!s.admits(&AudioCommand::Voice(VoiceStreamType::TCP, 1, opus(vec![1]))));
    s.add_client(1, 0, 0);
    assert!(!s.admits(&AudioCommand::AddClient(1)));
    assert!(s.admits(&AudioCommand::DelClient(1)));
    assert!(s.admits(&AudioCommand::Voice(VoiceStreamType::UDP, 1, opus(vec![1]))));
    assert!(!s.admits(&AudioCommand::Voice(VoiceStreamType::UDP, 2, opus(vec![1]))));
    s.del_client(1);
    assert!(s.admits(&AudioCommand::AddClient(1)));
}

#[test]
fn frame_count_for_a_run() {
    // 10 samples in frames of 4: (10 - 1) / 4 = 2 frames handed out
    let mut acc = FrameAccumulator::new(4);
    let mut frames = Vec::new();
    for s in 0..10 {
        if let Some(f) = acc.push(s) {
            frames.push(f);
        }
    }
    assert_eq!(frames, vec![vec![0, 1, 2, 3], vec![4, 5, 6, 7]]);
    // 8 samples in frames of 4: (8 - 1) / 4 = 1
    let mut acc = FrameAccumulator::new(4);
    let n = (0..8).filter(|s| acc.push(*s).is_some()).count();
    assert_eq!(n, 1);
}

#[test]
fn audio_packet_fields() {
    let p = audio_packet(17, vec![5, 6]);
    assert_eq!(p.target, 0);
    assert_eq!(p.seq_num, 17);
    assert_eq!(p.opus, vec![5, 6]);
    assert!(!p.end_of_transmission);
    assert_eq!(p.position_info, None);
}

#[test]
fn log_colors() {
    assert_eq!(level_color(LogLevel::Error), LogColor::Red);
    assert_eq!(level_color(LogLevel::Warn), LogColor::Yellow);
    assert_eq!(level_color(LogLevel::Info), LogColor::Normal);
    assert_eq!(level_color(LogLevel::Debug), LogColor::Green);
    assert_eq!(level_color(LogLevel::Trace), LogColor::Normal);
}
