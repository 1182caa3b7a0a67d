use screen_stream::broadcast::{Broadcaster, Received};
use screen_stream::capture::{backoff_delay_ms, CaptureLoop};
use screen_stream::compression::{decompress, Compressor};
use screen_stream::config::{Args, CompressionConfig, Config};
use screen_stream::error::AppError;
use screen_stream::metrics::{setup_metrics, Metrics};
use screen_stream::session::{ConnectionSession, SessionAction, SessionEvent, SessionState};
use screen_stream::wire::{decode_message, encode_header, encode_message, parse_header, FrameHeader};

fn header(frame_id: u64) -> FrameHeader {
    FrameHeader { width: 1280, height: 720, compressed: false, timestamp: 1700000000123, frame_id }
}

fn frame_id_of(r: Received) -> u64 {
    match r {
        Received::Message(bytes) => decode_message(&bytes).expect("a message").0.frame_id,
        _ => panic!("expected a message"),
    }
}

#[test]
fn header_text_is_compact_json() {
    let text = encode_header(&header(7));
    assert_eq!(
        String::from_utf8(text).unwrap(),
        "{\"width\":1280,\"height\":720,\"compressed\":false,\"timestamp\":1700000000123,\"frame_id\":7}"
    );
}

#[test]
fn message_layout_is_length_header_payload() {
    let h = FrameHeader { width: 0, height: 1, compressed: true, timestamp: 0, frame_id: u64::MAX };
    let msg = encode_message(&h, &[9, 8, 7]);
    let text = encode_header(&h);
    assert_eq!(&msg[0..4], &(text.len() as u32).to_le_bytes());
    assert_eq!(&msg[4..4 + text.len()], &text[..]);
    assert_eq!(&msg[4 + text.len()..], &[9, 8, 7]);
}

#[test]
fn framing_round_trips() {
    for (h, payload) in [
        (header(0), vec![]),
        (header(42), vec![1u8, 2, 3, 255, 0]),
        (FrameHeader { width: u32::MAX, height: 0, compressed: true, timestamp: u64::MAX, frame_id: 10 }, vec![123u8; 300]),
    ] {
        let msg = encode_message(&h, &payload);
        let (h2, body) = decode_message(&msg).expect("decodes");
        assert_eq!(h2, h);
        assert_eq!(body, payload);
    }
}

#[test]
fn decoding_rejects_what_is_not_a_message() {
    assert!(decode_message(&[]).is_none());
    assert!(decode_message(&[1, 0, 0]).is_none());
    assert!(decode_message(&[200, 0, 0, 0, 1, 2]).is_none());
    let mut msg = encode_message(&header(3), &[5]);
    msg[5] = b'x';
    assert!(decode_message(&msg).is_none());
    assert!(parse_header(b"{\"width\":01,\"height\":1,\"compressed\":true,\"timestamp\":1,\"frame_id\":1}").is_none());
    assert!(parse_header(b"{\"width\":4294967296,\"height\":1,\"compressed\":true,\"timestamp\":1,\"frame_id\":1}").is_none());
    assert_eq!(
        parse_header(b"{\"width\":4294967295,\"height\":1,\"compressed\":true,\"timestamp\":1,\"frame_id\":1}"),
        Some(FrameHeader { width: u32::MAX, height: 1, compressed: true, timestamp: 1, frame_id: 1 })
    );
}

#[test]
fn tick_interval_at_thirty_fps() {
    let mut config = Config::default();
    config.capture.fps = 30;
    assert_eq!(config.frame_interval_ms(), 33);
    config.capture.fps = 1;
    assert_eq!(config.frame_interval_ms(), 1000);
}

#[test]
fn uncompressed_message_carries_raw_bytes() {
    let mut c = Compressor::new(CompressionConfig { level: 3, enabled: false });
    let raw: Vec<u8> = (0..64u32).map(|i| (i * 7) as u8).collect();
    let m0 = c.create_frame_message(raw.clone(), 4, 4).unwrap();
    let m1 = c.create_frame_message(raw.clone(), 4, 4).unwrap();
    let (h0, body) = decode_message(&m0).unwrap();
    let (h1, _) = decode_message(&m1).unwrap();
    assert!(!h0.compressed);
    assert_eq!(body, raw);
    assert_eq!((h0.width, h0.height), (4, 4));
    assert_eq!(h0.frame_id, 0);
    assert_eq!(h1.frame_id, 1);
}

#[test]
fn compressed_message_decompresses_to_raw_bytes() {
    let mut c = Compressor::new(CompressionConfig { level: 3, enabled: true });
    let raw = vec![17u8; 4096];
    let m = c.create_frame_message(raw.clone(), 32, 32).unwrap();
    let (h, p) = decode_message(&m).unwrap();
    assert!(h.compressed);
    assert_ne!(p, raw);
    assert!(p.len() < raw.len());
    assert_eq!(decompress(&p).unwrap(), raw);
}

#[test]
fn decompress_rejects_garbage() {
    assert!(matches!(decompress(&[1, 2, 3, 4, 5]), Err(AppError::CompressionError(_))));
}

#[test]
fn slow_subscriber_lags_by_five_fast_one_sees_all() {
    let mut bc = Broadcaster::new(10);
    let fast = bc.subscribe();
    let slow = bc.subscribe();
    let mut seen = Vec::new();
    for i in 0..15u64 {
        assert!(bc.publish(encode_message(&header(i), &[i as u8])));
        seen.push(frame_id_of(bc.read(fast)));
    }
    assert_eq!(seen, (0..15).collect::<Vec<u64>>());
    assert!(matches!(bc.read(slow), Received::Lagged(5)));
    assert_eq!(frame_id_of(bc.read(slow)), 5);
    for i in 6..15u64 {
        assert_eq!(frame_id_of(bc.read(slow)), i);
    }
    assert!(matches!(bc.read(slow), Received::Empty));
}

#[test]
fn subscriber_reads_in_publish_order() {
    let mut bc = Broadcaster::new(4);
    let s = bc.subscribe();
    bc.publish(encode_message(&header(1), &[]));
    bc.publish(encode_message(&header(2), &[]));
    assert_eq!(frame_id_of(bc.read(s)), 1);
    bc.publish(encode_message(&header(3), &[]));
    assert_eq!(frame_id_of(bc.read(s)), 2);
    assert_eq!(frame_id_of(bc.read(s)), 3);
    assert!(matches!(bc.read(s), Received::Empty));
}

#[test]
fn no_replay_for_late_subscriber_and_close() {
    let mut bc = Broadcaster::new(4);
    let a = bc.subscribe();
    bc.publish(encode_message(&header(1), &[]));
    let b = bc.subscribe();
    bc.publish(encode_message(&header(2), &[]));
    assert_eq!(frame_id_of(bc.read(b)), 2);
    bc.close();
    assert!(!bc.publish(encode_message(&header(3), &[])));
    assert_eq!(frame_id_of(bc.read(a)), 1);
    assert_eq!(frame_id_of(bc.read(a)), 2);
    assert!(matches!(bc.read(a), Received::Closed));
}

#[test]
fn publish_without_subscribers_is_a_no_op() {
    let mut bc = Broadcaster::new(2);
    assert_eq!(bc.subscriber_count(), 0);
    assert!(!bc.publish(vec![1, 2, 3]));
    assert_eq!(bc.published(), 0);
    let s = bc.subscribe();
    assert_eq!(bc.subscriber_count(), 1);
    bc.unsubscribe(s);
    assert!(!bc.publish(vec![1]));
    let s2 = bc.subscribe();
    assert_eq!(s2, s);
}

#[test]
fn backoff_grows_linearly_to_a_cap() {
    assert_eq!(backoff_delay_ms(0), 0);
    assert_eq!(backoff_delay_ms(5), 0);
    assert_eq!(backoff_delay_ms(6), 600);
    assert_eq!(backoff_delay_ms(9), 900);
    assert_eq!(backoff_delay_ms(10), 1000);
    assert_eq!(backoff_delay_ms(u64::MAX), 1000);
}

fn uncompressed_config() -> Config {
    let mut config = Config::default();
    config.compression.enabled = false;
    config
}

#[test]
fn idle_tick_builds_nothing() {
    let mut lp = CaptureLoop::new(&uncompressed_config(), false);
    let mut bc = Broadcaster::new(10);
    let mut m = Metrics::new();
    let r = lp.tick(vec![0u8; 16], 2, 2, true, 4, &mut bc, &mut m);
    assert!(!r.published && !r.failed && r.backoff_ms == 0);
    assert_eq!(lp.frame_count(), 1);
    assert_eq!(m.frames_captured, 1);
    assert_eq!(m.frames_sent, 0);
    let s = bc.subscribe();
    let r = lp.tick(vec![0u8; 16], 2, 2, true, 4, &mut bc, &mut m);
    assert!(r.published);
    assert_eq!(frame_id_of(bc.read(s)), 0);
}

#[test]
fn failing_source_keeps_the_stream_going() {
    let config = uncompressed_config();
    let mut lp = CaptureLoop::new(&config, false);
    assert_eq!(lp.interval_ms(), 33);
    let mut bc = Broadcaster::new(10);
    let mut m = Metrics::new();
    let s = bc.subscribe();
    for i in 0..20u64 {
        let stand_in = vec![i as u8; 16];
        let r = lp.tick(stand_in.clone(), 2, 2, false, 1, &mut bc, &mut m);
        assert!(r.published);
        assert_eq!(r.backoff_ms, 0);
        assert_eq!(lp.error_count(), i + 1);
        let msg = match bc.read(s) {
            Received::Message(b) => b,
            _ => panic!("expected a frame"),
        };
        let (h, p) = decode_message(&msg).unwrap();
        assert_eq!(h.frame_id, i);
        assert_eq!(p, stand_in);
    }
    assert_eq!(m.capture_errors, 20);
    assert_eq!(m.frames_sent, 20);
}

#[test]
fn clean_tick_resets_errors_when_configured() {
    let mut lp = CaptureLoop::new(&uncompressed_config(), true);
    let mut bc = Broadcaster::new(10);
    let mut m = Metrics::new();
    lp.tick(vec![1], 1, 1, false, 0, &mut bc, &mut m);
    lp.tick(vec![1], 1, 1, false, 0, &mut bc, &mut m);
    assert_eq!(lp.error_count(), 2);
    lp.tick(vec![1], 1, 1, true, 0, &mut bc, &mut m);
    assert_eq!(lp.error_count(), 0);
}

#[test]
fn metrics_counters_and_averages() {
    let mut m = setup_metrics();
    m.decrement_connections();
    assert_eq!(m.get_active_connections(), 0);
    m.increment_connections();
    m.increment_connections();
    m.decrement_connections();
    assert_eq!(m.get_active_connections(), 1);
    assert_eq!(m.total_connections, 2);
    m.record_capture_duration(16);
    assert_eq!(m.avg_capture_duration_ms, 16);
    m.record_capture_duration(24);
    assert_eq!(m.avg_capture_duration_ms, 17);
    m.record_compression_duration(u64::MAX);
    m.record_compression_duration(u64::MAX);
    assert_eq!(m.avg_compression_duration_ms, u64::MAX);
    m.record_compression_ratio(0, 5);
    assert_eq!(m.compression_ratio, 1000);
    m.record_compression_ratio(1000, 250);
    assert_eq!(m.compression_ratio, 250);
    m.record_compression_ratio(1000, 1000);
    assert_eq!(m.compression_ratio, (250 * 7 + 1000) / 8);
    m.increment_frames_captured();
    m.increment_frames_sent();
    m.increment_frames_delivered();
    m.increment_dropped_frames();
    m.increment_capture_errors();
    let s = m.get_summary();
    assert_eq!(
        (s.frames_captured, s.frames_sent, s.frames_delivered, s.frames_dropped, s.capture_errors),
        (1, 1, 1, 1, 1)
    );
    assert_eq!(s.compression_ratio_permille, m.compression_ratio);
}

#[test]
fn config_defaults_overrides_and_checks() {
    let mut config = Config::default();
    assert_eq!(config.server.host, "0.0.0.0");
    assert_eq!(config.server.port, 8080);
    assert_eq!(config.capture.fps, 30);
    assert_eq!(config.buffer_size, 10);
    assert!(config.compression.enabled);
    assert!(config.validate().is_ok());
    let args = Args { config: "config.toml".to_string(), port: Some(9000), fps: None, compression: Some(19) };
    config.apply_overrides(&args);
    assert_eq!(config.server.port, 9000);
    assert_eq!(config.capture.fps, 30);
    assert_eq!(config.compression.level, 19);
    config.capture.fps = 0;
    assert!(matches!(config.validate(), Err(AppError::ConfigError(_))));
    config.capture.fps = 1001;
    assert!(matches!(config.validate(), Err(AppError::ConfigError(_))));
    config.capture.fps = 60;
    config.buffer_size = 0;
    assert!(matches!(config.validate(), Err(AppError::ConfigError(_))));
}

#[test]
fn session_reacts_to_events() {
    let mut bc = Broadcaster::new(10);
    let mut m = Metrics::new();
    let mut s = ConnectionSession::start(&mut bc, &mut m);
    assert_eq!(m.active_connections, 1);
    assert_eq!(bc.subscriber_count(), 1);
    assert_eq!(s.on_event(SessionEvent::FrameSent, &mut m), SessionAction::Continue);
    assert_eq!(s.on_event(SessionEvent::Lagged(3), &mut m), SessionAction::Continue);
    assert_eq!(s.on_event(SessionEvent::PingDue, &mut m), SessionAction::SendPing);
    assert_eq!(s.on_event(SessionEvent::Pong, &mut m), SessionAction::Continue);
    assert_eq!(s.on_event(SessionEvent::Text, &mut m), SessionAction::Continue);
    assert_eq!(s.state, SessionState::Active);
    assert_eq!((m.frames_delivered, m.frames_dropped, s.frames_sent), (1, 1, 1));
    assert_eq!(s.on_event(SessionEvent::CloseRequested, &mut m), SessionAction::Finish);
    assert_eq!(s.state, SessionState::Closing);
    s.finish(&mut bc, &mut m);
    assert_eq!(s.state, SessionState::Closed);
    assert_eq!(m.active_connections, 0);
    assert_eq!(bc.subscriber_count(), 0);
}

#[test]
fn session_ends_on_transport_failures() {
    for ev in [SessionEvent::SendFailed, SessionEvent::TransportError, SessionEvent::TransportEnded, SessionEvent::ChannelClosed] {
        let mut bc = Broadcaster::new(1);
        let mut m = Metrics::new();
        let mut s = ConnectionSession::start(&mut bc, &mut m);
        assert_eq!(s.on_event(ev, &mut m), SessionAction::Finish);
        assert_eq!(s.state, SessionState::Closing);
    }
}
