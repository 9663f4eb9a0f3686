use peeroxide::blind_relay::{
    decode_pair_from_slice, decode_unpair_from_slice, encode_pair_to_vec, encode_unpair_to_vec,
    BlindRelayClient, BlindRelayServer, BlindRelayServerConfig, BlindRelaySession, ChannelCommand,
    ChannelEvent, PairMessage, PairOutcome, PairStep, RelayError, RelayStats, RelayStatsSnapshot,
    SessionAction, SessionEvent, SessionOutbound, Signal, UnpairMessage, UnpairOutcome,
    MSG_TYPE_PAIR, MSG_TYPE_UNPAIR, PROTOCOL_NAME,
};
use peeroxide::compact_encoding::EncodingError;

const MILLI: u128 = 1_000_000;

/// Handle of an outbound queue nobody listens to.
const NOOP: u64 = 0;

fn default_server() -> BlindRelayServer {
    BlindRelayServer::new(BlindRelayServerConfig::default())
}

#[test]
fn pair_roundtrip_initiator() {
    let msg = PairMessage { is_initiator: true, token: [0xaa; 32], id: 42, seq: 7 };
    let encoded = encode_pair_to_vec(&msg);
    let decoded = decode_pair_from_slice(&encoded).unwrap();
    assert_eq!(decoded, msg);
}

#[test]
fn pair_roundtrip_responder() {
    let msg = PairMessage { is_initiator: false, token: [0xbb; 32], id: 0, seq: 0 };
    let encoded = encode_pair_to_vec(&msg);
    let decoded = decode_pair_from_slice(&encoded).unwrap();
    assert_eq!(decoded, msg);
}

#[test]
fn unpair_roundtrip() {
    let msg = UnpairMessage { token: [0xcc; 32] };
    let encoded = encode_unpair_to_vec(&msg);
    let decoded = decode_unpair_from_slice(&encoded).unwrap();
    assert_eq!(decoded, msg);
}

#[test]
fn pair_wire_format() {
    let msg = PairMessage { is_initiator: true, token: [0x42; 32], id: 1, seq: 2 };
    let encoded = encode_pair_to_vec(&msg);

    assert_eq!(encoded[0], 0x01);
    assert_eq!(&encoded[1..33], &[0x42; 32]);
    assert_eq!(encoded[33], 0x01);
    assert_eq!(encoded[34], 0x02);
    assert_eq!(encoded.len(), 35);
}

#[test]
fn pair_wire_format_responder() {
    let msg = PairMessage { is_initiator: false, token: [0x00; 32], id: 0, seq: 0 };
    let encoded = encode_pair_to_vec(&msg);

    assert_eq!(encoded[0], 0x00);
    assert_eq!(&encoded[1..33], &[0x00; 32]);
    assert_eq!(encoded[33], 0x00);
    assert_eq!(encoded[34], 0x00);
}

#[test]
fn unpair_wire_format() {
    let msg = UnpairMessage { token: [0xff; 32] };
    let encoded = encode_unpair_to_vec(&msg);

    assert_eq!(encoded[0], 0x00);
    assert_eq!(&encoded[1..33], &[0xff; 32]);
    assert_eq!(encoded.len(), 33);
}

#[test]
fn pair_large_ids() {
    let msg = PairMessage { is_initiator: true, token: [0xde; 32], id: 100_000, seq: 65_536 };
    let encoded = encode_pair_to_vec(&msg);
    let decoded = decode_pair_from_slice(&encoded).unwrap();
    assert_eq!(decoded, msg);
}

#[test]
fn protocol_name_constant() {
    assert_eq!(PROTOCOL_NAME, "blind-relay");
}

#[test]
fn pair_decoding_takes_only_the_lowest_flag_bit_and_ignores_a_tail() {
    let msg = PairMessage { is_initiator: true, token: [7; 32], id: 300, seq: 1 };
    let mut encoded = encode_pair_to_vec(&msg);
    encoded[0] = 0xff;
    encoded.push(9);
    assert_eq!(decode_pair_from_slice(&encoded).unwrap(), msg);
    encoded[0] = 0xfe;
    assert!(!decode_pair_from_slice(&encoded).unwrap().is_initiator);
}

#[test]
fn cut_off_messages_are_out_of_bounds() {
    let msg = PairMessage { is_initiator: true, token: [7; 32], id: 300, seq: 1 };
    let encoded = encode_pair_to_vec(&msg);
    for n in 0..encoded.len() {
        assert_eq!(decode_pair_from_slice(&encoded[..n]), Err(EncodingError::OutOfBounds));
    }
    let encoded = encode_unpair_to_vec(&UnpairMessage { token: [1; 32] });
    for n in 0..encoded.len() {
        assert_eq!(decode_unpair_from_slice(&encoded[..n]), Err(EncodingError::OutOfBounds));
    }
}

// ── Client ───────────────────────────────────────────────────────────────────

fn sent(c: ChannelCommand) -> (u32, Vec<u8>) {
    match c {
        ChannelCommand::Send { message_type, data } => (message_type, data),
        other => panic!("expected Send, got {other:?}"),
    }
}

#[test]
fn client_pair_with_fake_relay() {
    let token = [0xaa; 32];
    let (mut client, open) = BlindRelayClient::open(None);
    match open {
        ChannelCommand::Open { protocol, id } => {
            assert_eq!(protocol, PROTOCOL_NAME);
            assert!(id.is_none());
        }
        other => panic!("expected Open, got {other:?}"),
    }

    let (message_type, data) = sent(client.pair(true, &token, 42));
    assert_eq!(message_type, MSG_TYPE_PAIR);
    let pair_msg = decode_pair_from_slice(&data).unwrap();
    assert!(pair_msg.is_initiator);
    assert_eq!(pair_msg.token, token);
    assert_eq!(pair_msg.id, 42);

    assert!(matches!(client.on_event(&Some(ChannelEvent::Opened)), PairStep::Waiting));
    let other = PairMessage { is_initiator: false, token, id: 98, seq: 0 };
    let event = ChannelEvent::Message {
        message_type: MSG_TYPE_PAIR,
        data: encode_pair_to_vec(&other),
    };
    assert!(matches!(client.on_event(&Some(event)), PairStep::Waiting));

    let reply = PairMessage { is_initiator: true, token, id: 99, seq: 0 };
    let event = ChannelEvent::Message {
        message_type: MSG_TYPE_PAIR,
        data: encode_pair_to_vec(&reply),
    };
    match client.on_event(&Some(event)) {
        PairStep::Paired(resp) => assert_eq!(resp.remote_id, 99),
        other => panic!("expected Paired, got {other:?}"),
    }
    assert!(matches!(client.close(), ChannelCommand::Close));
}

#[test]
fn client_unpair() {
    let token = [0xbb; 32];
    let (mut client, _) = BlindRelayClient::open(None);
    let (message_type, data) = sent(client.unpair(&token));
    assert_eq!(message_type, MSG_TYPE_UNPAIR);
    assert_eq!(decode_unpair_from_slice(&data).unwrap().token, token);
    client.close();
}

#[test]
fn client_fails_when_the_channel_closes() {
    for event in [None, Some(ChannelEvent::Closed)] {
        let (mut client, _) = BlindRelayClient::open(Some(vec![1, 2]));
        client.pair(false, &[1; 32], 5);
        match client.on_event(&event) {
            PairStep::Failed(e) => {
                assert!(matches!(e, RelayError::ChannelClosed));
                assert_eq!(e.message(), "channel closed before pair response");
            }
            other => panic!("expected Failed, got {other:?}"),
        }
    }
}

#[test]
fn client_fails_on_a_malformed_reply_and_skips_other_messages() {
    let (mut client, _) = BlindRelayClient::open(None);
    client.pair(false, &[1; 32], 5);
    let other = ChannelEvent::Message { message_type: MSG_TYPE_UNPAIR, data: vec![] };
    assert!(matches!(client.on_event(&Some(other)), PairStep::Waiting));
    let bad = ChannelEvent::Message { message_type: MSG_TYPE_PAIR, data: vec![1, 2, 3] };
    match client.on_event(&Some(bad)) {
        PairStep::Failed(e) => {
            assert!(matches!(e, RelayError::Encoding(EncodingError::OutOfBounds)));
            assert_eq!(e.message(), "encoding error: out of bounds");
        }
        other => panic!("expected Failed, got {other:?}"),
    }
}

#[test]
fn relay_error_messages() {
    assert_eq!(
        RelayError::Protomux("closed".to_string()).message(),
        "protomux error: closed"
    );
    assert_eq!(RelayError::Destroyed.message(), "relay client destroyed");
    assert_eq!(RelayError::AlreadyPairing.message(), "already pairing with this token");
}

// ── Server engine ────────────────────────────────────────────────────────────

#[test]
fn try_pair_matches_two_sides() {
    let mut server = default_server();
    let token = [0x11; 32];

    let first = server.try_pair(1, true, token, 100, 0, NOOP, 0);
    assert!(matches!(first, PairOutcome::Pending));
    assert_eq!(server.stats().pairings_pending, 1);

    let second = server.try_pair(2, false, token, 200, 0, 8, 0);
    match second {
        PairOutcome::Matched(m) => {
            assert_eq!(m.token, token);
            assert_eq!(m.first.session_id, 1);
            assert!(m.first.is_initiator);
            assert_eq!(m.first.client_stream_id, 100);
            assert_eq!(m.first.outbound_tx, NOOP);
            assert_eq!(m.second.session_id, 2);
            assert!(!m.second.is_initiator);
            assert_eq!(m.second.client_stream_id, 200);
            assert_eq!(m.second.outbound_tx, 8);
        }
        other => panic!("expected Matched, got {other:?}"),
    }

    let stats = server.stats();
    assert_eq!(stats.pairings_pending, 0);
    assert_eq!(stats.pairings_matched, 1);
    assert_eq!(stats.pairings_active, 1);
    assert_eq!(stats.pairings_requested, 2);
}

#[test]
fn try_pair_duplicate_same_slot_is_noop() {
    let mut server = default_server();
    let token = [0x22; 32];

    assert!(matches!(server.try_pair(1, true, token, 1, 0, NOOP, 0), PairOutcome::Pending));
    assert!(matches!(
        server.try_pair(1, true, token, 1, 1, NOOP, 0),
        PairOutcome::AlreadyPairing
    ));
}

#[test]
fn try_pair_respects_max_pairings_per_session() {
    let mut config = BlindRelayServerConfig::default();
    config.max_pairings_per_session = 2;
    let mut server = BlindRelayServer::new(config);

    assert!(matches!(server.try_pair(1, true, [0x01; 32], 1, 0, NOOP, 0), PairOutcome::Pending));
    assert!(matches!(server.try_pair(1, true, [0x02; 32], 2, 1, NOOP, 0), PairOutcome::Pending));
    assert!(matches!(
        server.try_pair(1, true, [0x03; 32], 3, 2, NOOP, 0),
        PairOutcome::LimitExceeded
    ));
}

#[test]
fn a_refused_request_is_counted_and_registers_nothing() {
    let mut config = BlindRelayServerConfig::default();
    config.max_pairings_per_session = 0;
    let mut server = BlindRelayServer::new(config);
    let refused = server.try_pair(1, true, [0x01; 32], 1, 0, NOOP, 0);
    assert!(matches!(refused, PairOutcome::LimitExceeded));
    let stats = server.stats();
    assert_eq!(stats.pairings_requested, 1);
    assert_eq!(stats.pairings_pending, 0);
}

#[test]
fn the_statistics_account_for_every_request() {
    let mut config = BlindRelayServerConfig::default();
    config.max_pairings_per_session = 3;
    config.pairing_timeout = 10;
    let mut server = BlindRelayServer::new(config);
    server.try_pair(1, true, [1; 32], 1, 0, NOOP, 0);
    server.try_pair(2, false, [1; 32], 1, 0, NOOP, 0);
    server.try_pair(1, true, [2; 32], 1, 1, NOOP, 0);
    server.try_pair(1, true, [2; 32], 1, 2, NOOP, 0);
    server.unpair(1, [2; 32], 0);
    server.try_pair(1, true, [3; 32], 1, 1, NOOP, 0);
    server.sweep_expired_pairings(11);
    server.try_pair(1, true, [4; 32], 1, 1, NOOP, 12);
    server.try_pair(1, true, [5; 32], 1, 3, NOOP, 12);
    let s = server.stats();
    assert_eq!(s.pairings_requested, 7);
    assert_eq!((s.pairings_matched, s.pairings_cancelled, s.pairings_pending), (1, 2, 1));
}

#[test]
fn bridging_a_token_again_replaces_the_entry_only() {
    let mut server = default_server();
    for (a, b, handle) in [(1, 2, 10), (3, 4, 20)] {
        server.try_pair(a, true, [9; 32], 1, 0, NOOP, 0);
        server.try_pair(b, false, [9; 32], 1, 0, NOOP, 0);
        server.mark_active([9; 32], [b, a], handle);
    }
    assert!(server.take_signals().is_empty());
    let s = server.stats();
    assert_eq!((s.pairings_active, s.streams_opened, s.streams_closed), (2, 4, 0));
    server.release_session(1);
    assert!(server.take_signals().is_empty());
    assert_eq!(server.unpair(3, [9; 32], 0), UnpairOutcome::Destroyed);
    assert_eq!(server.take_signals(), vec![Signal::Teardown(20)]);
    assert_eq!(server.stats().pairings_active, 1);
}

#[test]
fn bridging_without_a_match_leaves_the_gauge() {
    let mut server = default_server();
    server.mark_active([9; 32], [1, 2], 10);
    assert_eq!(server.stats().pairings_active, 0);
    assert_eq!(server.unpair(1, [9; 32], 0), UnpairOutcome::Destroyed);
    assert_eq!(server.stats().pairings_active, -1);
}

#[test]
fn try_accept_session_respects_max_sessions() {
    let mut config = BlindRelayServerConfig::default();
    config.max_sessions = 1;
    let mut server = BlindRelayServer::new(config);

    let first = server.try_accept_session();
    assert!(first.is_some());
    assert!(server.try_accept_session().is_none());

    server.release_session(first.unwrap());
    assert!(server.try_accept_session().is_some());
}

#[test]
fn session_ids_count_up_from_one() {
    let mut server = default_server();
    assert_eq!(server.try_accept_session(), Some(1));
    assert_eq!(server.try_accept_session(), Some(2));
    server.release_session(1);
    assert_eq!(server.try_accept_session(), Some(3));
    let stats = server.stats();
    assert_eq!(stats.sessions_accepted, 3);
    assert_eq!(stats.sessions_active, 2);
}

#[test]
fn unpair_cancels_pending_registration() {
    let mut server = default_server();
    let token = [0x33; 32];

    server.try_pair(1, true, token, 1, 0, NOOP, 0);
    assert_eq!(server.stats().pairings_pending, 1);

    assert_eq!(server.unpair(1, token, 0), UnpairOutcome::Cancelled);
    assert_eq!(server.stats().pairings_pending, 0);
    assert_eq!(server.stats().pairings_cancelled, 1);

    assert_eq!(server.unpair(1, token, 0), UnpairOutcome::NotFound);
}

#[test]
fn unpair_unknown_token_not_found() {
    let mut server = default_server();
    assert_eq!(server.unpair(1, [0x99; 32], 0), UnpairOutcome::NotFound);
}

#[test]
fn unpair_of_another_sessions_pending_pairing_is_not_found() {
    let mut server = default_server();
    let token = [0x34; 32];
    server.try_pair(1, true, token, 1, 0, NOOP, 0);
    assert_eq!(server.unpair(2, token, 0), UnpairOutcome::NotFound);
    assert_eq!(server.stats().pairings_pending, 1);
}

#[test]
fn release_session_cancels_its_pending_pairings() {
    let mut server = default_server();
    let token = [0x44; 32];

    let session_id = server.try_accept_session().unwrap();
    server.try_pair(session_id, true, token, 1, 0, NOOP, 0);
    assert_eq!(server.stats().pairings_pending, 1);

    server.release_session(session_id);

    assert_eq!(server.stats().pairings_pending, 0);
    assert_eq!(server.stats().pairings_cancelled, 1);
    assert_eq!(server.stats().sessions_active, 0);
    assert!(matches!(server.try_pair(2, true, token, 1, 0, NOOP, 0), PairOutcome::Pending));
}

#[test]
fn sweep_expired_pairings_drops_stale_entries() {
    let mut config = BlindRelayServerConfig::default();
    config.pairing_timeout = MILLI;
    let mut server = BlindRelayServer::new(config);
    let token = [0x55; 32];

    server.try_pair(1, true, token, 1, 0, NOOP, 0);

    let dropped = server.sweep_expired_pairings(20 * MILLI);
    assert_eq!(dropped, 1);
    assert_eq!(server.stats().pairings_pending, 0);
    assert_eq!(server.stats().pairings_cancelled, 1);

    assert!(matches!(
        server.try_pair(2, true, token, 1, 0, NOOP, 20 * MILLI),
        PairOutcome::Pending
    ));
}

#[test]
fn sweep_expired_pairings_keeps_fresh_entries() {
    let mut config = BlindRelayServerConfig::default();
    config.pairing_timeout = 300_000 * MILLI;
    let mut server = BlindRelayServer::new(config);
    server.try_pair(1, true, [0x66; 32], 1, 0, NOOP, 0);

    assert_eq!(server.sweep_expired_pairings(0), 0);
    assert_eq!(server.stats().pairings_pending, 1);
}

#[test]
fn a_pairing_expires_only_after_the_timeout() {
    let mut config = BlindRelayServerConfig::default();
    config.pairing_timeout = 10;
    let mut server = BlindRelayServer::new(config);
    server.try_pair(1, true, [1; 32], 1, 0, NOOP, 100);
    server.try_pair(1, true, [2; 32], 1, 1, NOOP, 105);
    assert_eq!(server.sweep_expired_pairings(50), 0);
    assert_eq!(server.sweep_expired_pairings(110), 0);
    assert_eq!(server.sweep_expired_pairings(111), 1);
    assert_eq!(server.sweep_expired_pairings(111), 0);
    assert_eq!(server.stats().pairings_pending, 1);
}

#[test]
fn session_new_respects_max_sessions() {
    let mut config = BlindRelayServerConfig::default();
    config.max_sessions = 0;
    let mut server = BlindRelayServer::new(config);

    assert!(server.try_accept_session().is_none());
    assert!(BlindRelaySession::new(&mut server, 1, 0).is_none());
}

#[test]
fn unpair_on_active_pairing_signals_teardown() {
    let mut server = default_server();
    let token = [0x88; 32];
    let teardown = 77;

    server.try_pair(1, true, token, 1, 0, NOOP, 0);
    assert!(matches!(
        server.try_pair(2, false, token, 2, 0, NOOP, 0),
        PairOutcome::Matched(_)
    ));
    server.mark_active(token, [1, 2], teardown);
    assert_eq!(server.stats().pairings_active, 1);

    assert_eq!(server.unpair(1, token, 0), UnpairOutcome::Destroyed);
    assert_eq!(server.take_signals(), vec![Signal::Teardown(teardown)]);
    assert_eq!(server.stats().pairings_active, 0);

    assert_eq!(server.unpair(1, token, 0), UnpairOutcome::NotFound);
    assert!(server.take_signals().is_empty());
}

#[test]
fn release_session_tears_down_its_active_pairings() {
    let mut server = default_server();
    let token = [0x99; 32];
    let teardown = 5;

    let session_a = server.try_accept_session().unwrap();
    let session_b = server.try_accept_session().unwrap();
    server.try_pair(session_a, true, token, 1, 0, NOOP, 0);
    server.try_pair(session_b, false, token, 2, 0, NOOP, 0);
    server.mark_active(token, [session_a, session_b], teardown);
    assert_eq!(server.stats().pairings_active, 1);

    server.release_session(session_a);

    assert_eq!(server.take_signals(), vec![Signal::Teardown(teardown)]);
    assert_eq!(server.stats().pairings_active, 0);
}

#[test]
fn release_session_only_tears_down_its_own_active_pairings() {
    let mut server = default_server();
    let token_a = [0xaa; 32];
    let token_b = [0xbb; 32];
    let teardown_a = 1;
    let teardown_b = 2;

    let session_1 = server.try_accept_session().unwrap();
    let session_2 = server.try_accept_session().unwrap();
    let session_3 = server.try_accept_session().unwrap();

    server.try_pair(session_1, true, token_a, 1, 0, NOOP, 0);
    server.try_pair(session_2, false, token_a, 2, 0, NOOP, 0);
    server.mark_active(token_a, [session_1, session_2], teardown_a);

    server.try_pair(session_2, true, token_b, 3, 1, NOOP, 0);
    server.try_pair(session_3, false, token_b, 4, 0, NOOP, 0);
    server.mark_active(token_b, [session_2, session_3], teardown_b);

    assert_eq!(server.stats().pairings_active, 2);

    server.release_session(session_1);

    let signals = server.take_signals();
    assert!(signals.contains(&Signal::Teardown(teardown_a)));
    assert!(!signals.contains(&Signal::Teardown(teardown_b)));
    assert_eq!(server.stats().pairings_active, 1);
}

#[test]
fn sweep_idle_sessions_closes_sessions_past_timeout() {
    let mut config = BlindRelayServerConfig::default();
    config.idle_session_timeout = MILLI;
    let mut server = BlindRelayServer::new(config);
    let session_id = server.try_accept_session().unwrap();
    let outbound = 31;
    server.register_session(session_id, outbound, 0);

    let closed = server.sweep_idle_sessions(20 * MILLI);
    assert_eq!(closed, vec![session_id]);
    assert_eq!(server.take_signals(), vec![Signal::Close(outbound)]);
}

#[test]
fn sweep_idle_sessions_keeps_recently_active_sessions() {
    let mut config = BlindRelayServerConfig::default();
    config.idle_session_timeout = 300_000 * MILLI;
    let mut server = BlindRelayServer::new(config);
    let session_id = server.try_accept_session().unwrap();
    server.register_session(session_id, 1, 0);

    assert_eq!(server.sweep_idle_sessions(0), Vec::<u64>::new());
}

#[test]
fn sweep_idle_sessions_skips_sessions_that_are_not_registered() {
    let mut config = BlindRelayServerConfig::default();
    config.idle_session_timeout = 1;
    let mut server = BlindRelayServer::new(config);
    server.touch_session(9, 0);
    assert_eq!(server.sweep_idle_sessions(100), Vec::<u64>::new());
    assert!(server.take_signals().is_empty());
}

#[test]
fn pair_and_unpair_reset_idle_clock() {
    let mut config = BlindRelayServerConfig::default();
    config.idle_session_timeout = 50 * MILLI;
    let mut server = BlindRelayServer::new(config);
    let session_id = server.try_accept_session().unwrap();
    server.register_session(session_id, 1, 0);

    server.try_pair(session_id, true, [0x77; 32], 1, 0, NOOP, 30 * MILLI);

    assert_eq!(server.sweep_idle_sessions(60 * MILLI), Vec::<u64>::new());

    server.unpair(session_id, [0x77; 32], 70 * MILLI);
    assert_eq!(server.sweep_idle_sessions(120 * MILLI), Vec::<u64>::new());
    assert_eq!(server.sweep_idle_sessions(121 * MILLI), vec![session_id]);
}

#[test]
fn release_without_a_session_wraps_around() {
    let mut server = default_server();
    server.release_session(4);
    assert_eq!(server.stats().sessions_active, -1);
    assert!(server.try_accept_session().is_none());
}

#[test]
fn default_limits() {
    let server = default_server();
    let config = server.config();
    assert_eq!(config.max_sessions, 10_000);
    assert_eq!(config.max_pairings_per_session, 256);
    assert_eq!(config.pairing_timeout, 300_000 * MILLI);
    assert_eq!(config.idle_session_timeout, 600_000 * MILLI);
}

#[test]
fn snapshot_copies_every_counter() {
    let mut stats = RelayStats::default();
    stats.sessions_accepted = 1;
    stats.sessions_active = 2;
    stats.pairings_requested = 3;
    stats.pairings_matched = 4;
    stats.pairings_cancelled = 5;
    stats.pairings_pending = 6;
    stats.pairings_active = 7;
    stats.streams_opened = 8;
    stats.streams_closed = 9;
    stats.streams_errors = 10;
    let s = stats.snapshot();
    assert_eq!(
        (
            s.sessions_accepted,
            s.sessions_active,
            s.pairings_requested,
            s.pairings_matched,
            s.pairings_cancelled
        ),
        (1, 2, 3, 4, 5)
    );
    assert_eq!(
        (
            s.pairings_pending,
            s.pairings_active,
            s.streams_opened,
            s.streams_closed,
            s.streams_errors
        ),
        (6, 7, 8, 9, 10)
    );
    assert_eq!(RelayStatsSnapshot::default().streams_errors, 0);
}

// ── Sessions ─────────────────────────────────────────────────────────────────

fn message(c: ChannelCommand) -> SessionEvent {
    let (message_type, data) = sent(c);
    SessionEvent::Channel(Some(ChannelEvent::Message { message_type, data }))
}

#[test]
fn session_end_to_end_pair_match() {
    let mut server = default_server();
    let mut session_a = BlindRelaySession::new(&mut server, 10, 0).unwrap();
    let mut session_b = BlindRelaySession::new(&mut server, 20, 0).unwrap();
    let (mut client_a, _) = BlindRelayClient::open(None);
    let (mut client_b, _) = BlindRelayClient::open(None);
    let token = [0x77; 32];

    let first = session_a.step(&mut server, &message(client_a.pair(true, &token, 111)), 1);
    assert!(matches!(first, SessionAction::Continue));
    let matched = match session_b.step(&mut server, &message(client_b.pair(false, &token, 222)), 2) {
        SessionAction::Matched(m) => m,
        other => panic!("expected Matched, got {other:?}"),
    };
    assert_eq!(matched.token, token);
    assert_eq!(matched.first.session_id, session_a.session_id());
    assert_eq!(matched.first.outbound_tx, 10);
    assert_eq!(matched.second.outbound_tx, 20);

    let mut ids = Vec::new();
    for (session, client, side, id) in [
        (&mut session_a, &mut client_a, matched.first, 9001),
        (&mut session_b, &mut client_b, matched.second, 9002),
    ] {
        let notice = SessionOutbound::PairMatched {
            token,
            is_initiator: side.is_initiator,
            local_stream_id: id,
        };
        let event = SessionEvent::Outbound(Some(notice));
        let (message_type, data) = match session.step(&mut server, &event, 3) {
            SessionAction::Send { message_type, data } => (message_type, data),
            other => panic!("expected Send, got {other:?}"),
        };
        match client.on_event(&Some(ChannelEvent::Message { message_type, data })) {
            PairStep::Paired(resp) => ids.push(resp.remote_id),
            other => panic!("expected Paired, got {other:?}"),
        }
    }
    assert_eq!(ids, vec![9001, 9002]);
    session_a.finish(&mut server);
    session_b.finish(&mut server);
    assert_eq!(server.stats().sessions_active, 0);
}

#[test]
fn session_stops_when_told_or_when_its_channel_ends() {
    let mut server = default_server();
    let mut session = BlindRelaySession::new(&mut server, 1, 0).unwrap();
    for event in [
        SessionEvent::Outbound(Some(SessionOutbound::Close)),
        SessionEvent::Outbound(None),
        SessionEvent::Channel(Some(ChannelEvent::Closed)),
        SessionEvent::Channel(None),
    ] {
        assert!(matches!(session.step(&mut server, &event, 1), SessionAction::Stop));
    }
    let opened = SessionEvent::Channel(Some(ChannelEvent::Opened));
    assert!(matches!(session.step(&mut server, &opened, 1), SessionAction::Continue));
}

#[test]
fn session_drops_malformed_and_unknown_messages() {
    let mut server = default_server();
    let mut session = BlindRelaySession::new(&mut server, 1, 0).unwrap();
    assert!(session.on_message(&mut server, MSG_TYPE_PAIR, &[1, 2], 5).is_none());
    assert!(session.on_message(&mut server, MSG_TYPE_UNPAIR, &[1, 2], 5).is_none());
    assert!(session.on_message(&mut server, 7, &[0; 40], 5).is_none());
    assert_eq!(server.stats().pairings_requested, 0);
}

#[test]
fn session_limit_counts_pending_and_active_pairings() {
    let mut config = BlindRelayServerConfig::default();
    config.max_pairings_per_session = 2;
    let mut server = BlindRelayServer::new(config);
    let mut a = BlindRelaySession::new(&mut server, 1, 0).unwrap();
    let mut b = BlindRelaySession::new(&mut server, 2, 0).unwrap();
    let pair = |is_initiator, t| {
        encode_pair_to_vec(&PairMessage { is_initiator, token: [t; 32], id: 1, seq: 0 })
    };
    let unpair = |t| encode_unpair_to_vec(&UnpairMessage { token: [t; 32] });

    a.on_message(&mut server, MSG_TYPE_PAIR, &pair(true, 1), 0);
    assert!(b.on_message(&mut server, MSG_TYPE_PAIR, &pair(false, 1), 0).is_some());
    b.on_message(&mut server, MSG_TYPE_PAIR, &pair(true, 2), 0);
    assert_eq!(server.stats().pairings_pending, 1);
    b.on_message(&mut server, MSG_TYPE_PAIR, &pair(true, 3), 0);
    assert_eq!(server.stats().pairings_pending, 1);

    b.on_message(&mut server, MSG_TYPE_UNPAIR, &unpair(2), 0);
    assert_eq!(server.stats().pairings_pending, 0);
    b.on_message(&mut server, MSG_TYPE_PAIR, &pair(true, 3), 0);
    assert_eq!(server.stats().pairings_pending, 1);
}

#[test]
fn a_session_that_holds_nothing_is_not_refused() {
    let mut config = BlindRelayServerConfig::default();
    config.max_pairings_per_session = 1;
    let mut server = BlindRelayServer::new(config);
    let mut a = BlindRelaySession::new(&mut server, 1, 0).unwrap();
    let mut b = BlindRelaySession::new(&mut server, 2, 0).unwrap();
    let pair = |is_initiator, t| {
        encode_pair_to_vec(&PairMessage { is_initiator, token: [t; 32], id: 1, seq: 0 })
    };
    let unpair = |t| encode_unpair_to_vec(&UnpairMessage { token: [t; 32] });

    a.on_message(&mut server, MSG_TYPE_PAIR, &pair(true, 1), 0);
    let matched = b.on_message(&mut server, MSG_TYPE_PAIR, &pair(false, 1), 0).unwrap();
    assert_eq!(server.pairings_held(a.session_id()), 1);
    server.mark_active(matched.token, [a.session_id(), b.session_id()], 5);
    assert_eq!(server.pairings_held(a.session_id()), 1);
    a.on_message(&mut server, MSG_TYPE_PAIR, &pair(true, 2), 0);
    assert_eq!(server.stats().pairings_pending, 0);

    b.on_message(&mut server, MSG_TYPE_UNPAIR, &unpair(1), 0);
    assert_eq!(server.pairings_held(a.session_id()), 0);
    a.on_message(&mut server, MSG_TYPE_PAIR, &pair(true, 2), 0);
    assert_eq!(server.stats().pairings_pending, 1);
}
