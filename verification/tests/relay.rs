use peeroxide::blind_relay::{
    BlindRelayServer, BlindRelayServerConfig, PairOutcome, SessionOutbound, Signal,
};
use peeroxide::hyperdht_messages::{
    RemotePayload, StreamIds, UdxInfo, FIREWALL_UNKNOWN, MODE_FROM_SECOND_RELAY, MODE_FROM_SERVER,
};
use peeroxide::messages::Ipv4Peer;
use peeroxide::outside::HexError;
use peeroxide::peer_discovery::{
    hex_short, plan_refresh, refresh_delay, refresh_delay_with, refresh_events, to_hex,
    DiscoveryEvent, FoundPeer, PeerDiscoveryConfig,
};
use peeroxide::relay_command::{
    parse_key_seed, relay_limits, resolve, KeySeedError, RelayArgs, RelayArgsError,
};
use peeroxide::relay_service::{
    activate_bridge, control_stream_id, next_relay_stream_id, on_request, plan_bridge, sweep,
    RelayServiceConfig, RelayServiceError, ServerRequest, StreamError,
};

fn args() -> RelayArgs {
    RelayArgs {
        port: None,
        host: None,
        key_seed: None,
        stats_interval: None,
        max_sessions: None,
        max_pairings_per_session: None,
        pairing_timeout: None,
        idle_session_timeout: None,
    }
}

#[test]
fn service_defaults() {
    let c = RelayServiceConfig::default();
    assert_eq!(c.sweep_interval, 30_000_000_000);
    assert_eq!(c.firewall, FIREWALL_UNKNOWN);
    assert_eq!(c.relay.max_sessions, 10_000);
    assert_eq!(RelayServiceError::ChannelClosed.message(), "DHT server-event channel closed");
}

#[test]
fn handshakes_with_errors_are_declined() {
    let mut ids = StreamIds::new();
    assert!(on_request(ServerRequest::Holepunch).is_none());
    let start = || on_request(ServerRequest::Handshake(0, None)).unwrap();
    let bad = RemotePayload { error: 1, firewall: 0, udx: None };
    assert!(start().read(None, &mut ids).is_none());
    assert!(start().read(Some(bad), &mut ids).is_none());
    let good = RemotePayload { error: 0, firewall: 0, udx: None };
    let read = start().read(Some(good), &mut ids).unwrap();
    assert_eq!(read.local_stream_id, 1);
    assert!(read.written(None).is_none());
    let read = start().read(Some(good), &mut ids).unwrap();
    assert!(read.written(Some(vec![])).unwrap().conclude(None).is_none());
}

#[test]
fn an_answered_handshake_leads_to_a_control_connection() {
    let mut ids = StreamIds::new();
    let from = Ipv4Peer { host: "1.1.1.1".into(), port: 1 };
    let request = ServerRequest::Handshake(MODE_FROM_SECOND_RELAY, Some(from.clone()));
    let udx = UdxInfo { version: 1, reusable_socket: true, id: 70, seq: 0 };
    let good = RemotePayload { error: 0, firewall: 0, udx: Some(udx) };
    let read = on_request(request).unwrap().read(Some(good), &mut ids).unwrap();
    let p = read.payload(3, vec![from.clone()]);
    assert_eq!((p.version, p.error, p.firewall), (1, 0, 3));
    assert_eq!(p.udx.unwrap().id, 1);
    assert_eq!(p.addresses4, vec![from.clone()]);
    assert!(p.holepunch.is_none() && p.relay_through.is_none() && p.relay_addresses.is_none());
    let (reply, control) = read.written(Some(vec![5])).unwrap().conclude(Some([8; 32])).unwrap();
    assert_eq!((reply.mode, reply.noise), (MODE_FROM_SERVER, vec![5]));
    assert_eq!(reply.peer_address, Some(from));
    let control = control.unwrap();
    assert_eq!((control.local_stream_id, control.remote.id), (1, 70));
    assert_eq!(control.remote_pk, [8; 32]);
}

#[test]
fn control_streams_have_narrow_ids() {
    let udx = |id| UdxInfo { version: 1, reusable_socket: true, id, seq: 0 };
    assert_eq!(control_stream_id(&udx(3)), Ok(3));
    assert_eq!(control_stream_id(&udx(1 << 40)), Err(StreamError::RemoteIdOutOfRange));
    assert_eq!(StreamError::RemoteIdOutOfRange.message(), "remote UDX id out of u32 range");
}

#[test]
fn a_match_is_bridged_and_torn_down() {
    let mut server = BlindRelayServer::new(BlindRelayServerConfig::default());
    let mut ids = StreamIds::new();
    let token = [7; 32];
    server.try_pair(1, false, token, 100, 0, 0, 0);
    let matched = match server.try_pair(2, true, token, 200, 0, 0, 0) {
        PairOutcome::Matched(m) => m,
        other => panic!("expected Matched, got {other:?}"),
    };
    let plan = plan_bridge(&mut ids, &matched).unwrap();
    assert_eq!((plan.first_local_id, plan.first_remote_id), (1, 100));
    assert_eq!((plan.second_local_id, plan.second_remote_id), (2, 200));
    let (first, second) = activate_bridge(&mut server, &matched, &plan, 55).unwrap();
    assert_eq!(server.stats().streams_opened, 2);
    assert_eq!(server.stats().pairings_active, 1);
    match first {
        SessionOutbound::PairMatched { token: t, is_initiator, local_stream_id } => {
            assert_eq!((t, is_initiator, local_stream_id), (token, false, 1));
        }
        other => panic!("expected PairMatched, got {other:?}"),
    }
    match second {
        SessionOutbound::PairMatched { token: t, is_initiator, local_stream_id } => {
            assert_eq!((t, is_initiator, local_stream_id), (token, true, 2));
        }
        other => panic!("expected PairMatched, got {other:?}"),
    }
    server.release_session(2);
    assert_eq!(server.take_signals(), vec![Signal::Teardown(55)]);
    assert_eq!(server.stats().streams_closed, 2);
    assert_eq!(server.stats().pairings_active, 0);
}

#[test]
fn a_match_whose_session_ended_is_not_bridged() {
    let mut server = BlindRelayServer::new(BlindRelayServerConfig::default());
    let mut ids = StreamIds::new();
    let a = server.try_accept_session().unwrap();
    let b = server.try_accept_session().unwrap();
    server.try_pair(a, false, [7; 32], 100, 0, 0, 0);
    let matched = match server.try_pair(b, true, [7; 32], 200, 0, 0, 0) {
        PairOutcome::Matched(m) => m,
        other => panic!("expected Matched, got {other:?}"),
    };
    assert!(server.awaits_bridge(&matched));
    assert_eq!(server.stats().pairings_active, 1);
    server.release_session(a);
    assert!(!server.awaits_bridge(&matched));
    assert_eq!(server.stats().pairings_active, 0);
    let plan = plan_bridge(&mut ids, &matched).unwrap();
    assert!(activate_bridge(&mut server, &matched, &plan, 55).is_none());
    assert_eq!(server.stats().streams_opened, 0);
    assert!(server.take_signals().is_empty());
}

#[test]
fn a_wide_client_id_uses_up_two_ids() {
    let mut server = BlindRelayServer::new(BlindRelayServerConfig::default());
    let mut ids = StreamIds::new();
    server.try_pair(1, false, [1; 32], 1 << 32, 0, 0, 0);
    let matched = match server.try_pair(2, true, [1; 32], 2, 0, 0, 0) {
        PairOutcome::Matched(m) => m,
        other => panic!("expected Matched, got {other:?}"),
    };
    let e = plan_bridge(&mut ids, &matched).err();
    assert_eq!(e, Some(StreamError::ClientIdOutOfRange));
    assert_eq!(StreamError::ClientIdOutOfRange.message(), "client stream id out of range");
    assert_eq!(next_relay_stream_id(&mut ids), 3);

    server.abandon_match(&matched);
    assert_eq!(server.stats().pairings_active, 0);
    assert_eq!(server.stats().streams_errors, 1);
    server.abandon_match(&matched);
    assert_eq!(server.stats().streams_errors, 1);
}

#[test]
fn the_sweep_drops_pairings_and_closes_sessions() {
    let mut config = BlindRelayServerConfig::default();
    config.pairing_timeout = 10;
    config.idle_session_timeout = 20;
    let mut server = BlindRelayServer::new(config);
    let id = server.try_accept_session().unwrap();
    server.register_session(id, 4, 0);
    server.try_pair(id, true, [1; 32], 1, 0, 4, 0);
    assert_eq!(sweep(&mut server, 11), (1, vec![]));
    assert_eq!(sweep(&mut server, 21), (0, vec![id]));
    assert_eq!(server.take_signals(), vec![Signal::Close(4)]);
}

// ── Discovery ────────────────────────────────────────────────────────────────

#[test]
fn hex_short_takes_four_bytes() {
    assert_eq!(hex_short(&[0x0f, 0xa0]), "0fa0");
    assert_eq!(hex_short(&[]), "");
    assert_eq!(hex_short(&[1, 2, 3, 4, 5]), "01020304");
    assert_eq!(to_hex(&[1, 2, 3, 4, 0xfe]), "01020304fe");
    assert_eq!(to_hex(&[]), "");
}

#[test]
fn refreshes_come_every_ten_to_twelve_minutes() {
    assert_eq!(refresh_delay_with(5), 600_005);
    let delays: Vec<u64> = (0..50).map(|_| refresh_delay()).collect();
    assert!(delays.iter().all(|d| (600_000..720_000).contains(d)));
    assert!(delays.iter().any(|d| *d != delays[0]));
}

#[test]
fn announced_relays_fall_back_to_the_current_ones() {
    let a = vec![Ipv4Peer { host: "1.1.1.1".into(), port: 1 }];
    let b = vec![Ipv4Peer { host: "2.2.2.2".into(), port: 2 }];
    let config = |is_server, is_client| PeerDiscoveryConfig { topic: [0; 32], is_server, is_client };
    let plan = plan_refresh(&config(true, false), &a, &b);
    assert_eq!(plan.announce, Some((a.clone(), a)));
    assert!(!plan.lookup);
    let plan = plan_refresh(&config(true, true), &vec![], &b);
    assert_eq!(plan.announce, Some((b, vec![])));
    assert!(plan.lookup);
    assert!(plan_refresh(&config(false, true), &vec![], &vec![]).announce.is_none());
}

#[test]
fn a_refresh_reports_every_peer_and_then_its_end() {
    let topic = [3; 32];
    let client = PeerDiscoveryConfig { topic, is_server: false, is_client: true };
    let found = |k: u8| FoundPeer {
        public_key: [k; 32],
        relay_addresses: vec![Ipv4Peer { host: "1.1.1.1".into(), port: k as u16 }],
    };
    let events = refresh_events(&client, Some(vec![vec![found(1), found(2)], vec![], vec![found(1)]]));
    assert_eq!(events.len(), 4);
    let mut keys = Vec::new();
    for e in &events[..3] {
        match e {
            DiscoveryEvent::PeerFound { public_key, relay_addresses, topic: t } => {
                assert_eq!(*t, topic);
                assert_eq!(relay_addresses[0].port, public_key[0] as u16);
                keys.push(public_key[0]);
            }
            other => panic!("expected PeerFound, got {other:?}"),
        }
    }
    assert_eq!(keys, vec![1, 2, 1]);
    assert!(matches!(events[3], DiscoveryEvent::RefreshComplete { topic: t } if t == topic));
    assert_eq!(refresh_events(&client, None).len(), 1);
    let server = PeerDiscoveryConfig { topic, is_server: true, is_client: false };
    assert_eq!(refresh_events(&server, Some(vec![vec![found(1)]])).len(), 1);
}

// ── Command ──────────────────────────────────────────────────────────────────

#[test]
fn key_seeds_are_64_hex_digits() {
    assert_eq!(parse_key_seed(None).unwrap(), None);
    let hex = "000102030405060708090a0b0c0d0e0f101112131415161718191A1B1C1D1E1F";
    let seed = parse_key_seed(Some(hex)).unwrap().unwrap();
    for (i, b) in seed.iter().enumerate() {
        assert_eq!(*b as usize, i);
    }
    assert!(matches!(parse_key_seed(Some("00ff")), Err(KeySeedError::WrongLength)));
    assert!(matches!(parse_key_seed(Some("")), Err(KeySeedError::WrongLength)));
    assert!(matches!(
        parse_key_seed(Some("abc")),
        Err(KeySeedError::InvalidHex(HexError::OddLength))
    ));
    assert!(matches!(
        parse_key_seed(Some("66ag")),
        Err(KeySeedError::InvalidHex(HexError::InvalidHexCharacter { c: 'g', index: 3 }))
    ));
    assert!(matches!(
        parse_key_seed(Some("é")),
        Err(KeySeedError::InvalidHex(HexError::InvalidHexCharacter { c: 'Ã', index: 0 }))
    ));
}

#[test]
fn settings_default_and_override() {
    let s = resolve(args(), None, None).unwrap();
    assert_eq!(s.port, 49737);
    assert_eq!(s.host, "0.0.0.0");
    assert_eq!(s.stats_interval, 60);
    assert_eq!(s.key_seed, None);
    assert_eq!(s.relay.max_sessions, 10_000);

    let s = resolve(args(), Some(1), Some("h".to_string())).unwrap();
    assert_eq!((s.port, s.host.as_str()), (1, "h"));

    let mut a = args();
    a.port = Some(2);
    a.host = Some("g".to_string());
    a.max_sessions = Some(3);
    a.max_pairings_per_session = Some(4);
    a.pairing_timeout = Some(5);
    a.idle_session_timeout = Some(u64::MAX);
    let limits = relay_limits(&a);
    assert_eq!(limits.max_sessions, 3);
    let s = resolve(a, Some(1), Some("h".to_string())).unwrap();
    assert_eq!((s.port, s.host.as_str()), (2, "g"));
    assert_eq!(s.relay.max_pairings_per_session, 4);
    assert_eq!(s.relay.pairing_timeout, 5_000_000_000);
    assert_eq!(s.relay.idle_session_timeout, u64::MAX as u128 * 1_000_000_000);
}

#[test]
fn a_zero_interval_is_found_before_a_bad_seed() {
    let mut a = args();
    a.stats_interval = Some(0);
    a.key_seed = Some("zz".to_string());
    assert!(matches!(resolve(a, None, None), Err(RelayArgsError::ZeroStatsInterval)));
    let mut a = args();
    a.key_seed = Some("zz".to_string());
    assert!(matches!(resolve(a, None, None), Err(RelayArgsError::KeySeed(_))));
}
