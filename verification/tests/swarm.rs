use peeroxide::blind_relay::{BlindRelayClient, ChannelCommand, PairStep, RelayError, MSG_TYPE_PAIR};
use peeroxide::hyperdht_messages::{
    narrow_id, reply_mode, reply_peer_address, HolepunchPayload, RemotePayload, StreamIds, UdxInfo,
    FIREWALL_CONSISTENT, FIREWALL_OPEN, FIREWALL_RANDOM, FIREWALL_UNKNOWN, MODE_FROM_CLIENT,
    MODE_FROM_RELAY, MODE_FROM_SECOND_RELAY, MODE_FROM_SERVER, MODE_REPLY,
};
use peeroxide::messages::Ipv4Peer;
use peeroxide::peer_discovery::DiscoveryEvent;
use peeroxide::peer_info::{PeerInfo, Priority};
use peeroxide::swarm::handshake::{
    attempts_holepunch, holepunch_info, peer_stream_id, relay_dialled, relay_pair_request,
    relay_paired, relay_route, relay_through_with, relayed_stream_id, server_payload, Followup,
    HandshakeConfig, PeerStreamError, ReceivedHandshake, RelayConnectError, RelayDial, RelayRoute,
    StagedPunch,
};
use peeroxide::swarm::holepunch::{punch_reply, Landed, PassivePunches};
use peeroxide::swarm::state::{
    Admission, CommandOutcome, Connected, SwarmCommand, SwarmState,
};
use peeroxide::swarm::{
    is_key_after, next_stream_id, primary_port, retry_delay, retry_delay_with, short_hex, JoinOpts,
    SwarmConfig,
};

const ME: [u8; 32] = [5; 32];

fn peer(host: &str, port: u16) -> Ipv4Peer {
    Ipv4Peer { host: host.into(), port }
}

fn swarm() -> SwarmState {
    SwarmState::new(ME, 64, 3, None)
}

#[test]
fn retry_delay_first_attempt_unproven() {
    let mut info = PeerInfo::new([0u8; 32], vec![]);
    info.attempts = 0;
    let d = retry_delay(&info);
    assert!(d >= 5000);
    assert!(d < 7000);
}

#[test]
fn retry_delay_first_attempt_proven() {
    let mut info = PeerInfo::new([0u8; 32], vec![]);
    info.attempts = 0;
    info.proven = true;
    let d = retry_delay(&info);
    assert!(d >= 1000);
    assert!(d < 1500);
}

#[test]
fn retry_delay_many_attempts() {
    let mut info = PeerInfo::new([0u8; 32], vec![]);
    info.attempts = 10;
    let d = retry_delay(&info);
    assert!(d >= 600_000);
    assert!(d < 710_000);
}

#[test]
fn retry_delay_varies_within_its_step() {
    let mut info = PeerInfo::new([0u8; 32], vec![]);
    info.attempts = 1;
    let delays: Vec<u64> = (0..50).map(|_| retry_delay(&info)).collect();
    assert!(delays.iter().all(|d| (15_000..=15_000 + 4999 + 2499 + 999).contains(d)));
    assert!(delays.iter().any(|d| *d != delays[0]));
}

#[test]
fn retry_delay_is_the_sum_of_its_parts() {
    let mut info = PeerInfo::new([0u8; 32], vec![]);
    assert_eq!(retry_delay_with(&info, 1, 2, 3), 5006);
    info.attempts = u32::MAX;
    assert_eq!(retry_delay_with(&info, 59_999, 29_999, 14_999), 704_997);
    info.proven = true;
    info.attempts = 2;
    assert_eq!(retry_delay_with(&info, 0, 0, 0), 15_000);
}

#[test]
fn short_hex_format() {
    let bytes = [0xde, 0xad, 0xbe, 0xef, 0x00, 0x11, 0x22, 0x33];
    assert_eq!(short_hex(&bytes), "deadbeef");
}

#[test]
fn default_config() {
    let c = SwarmConfig::default();
    assert!(c.key_pair.is_none());
    assert_eq!(c.max_peers, 64);
    assert_eq!(c.max_parallel, 3);
    assert_eq!(c.firewall, 0);
    assert!(c.relay_through.is_none());
    assert!(c.local_connection);
}

#[test]
fn default_join_opts() {
    let j = JoinOpts::default();
    assert!(j.server);
    assert!(j.client);
}

#[test]
fn stream_ids_count_up() {
    let mut ids = StreamIds::new();
    assert_eq!(next_stream_id(&mut ids), 1);
    assert_eq!(next_stream_id(&mut ids), 2);
}

#[test]
fn keys_are_ordered_byte_by_byte() {
    let a = [1; 32];
    let mut b = [1; 32];
    assert!(!is_key_after(&a, &b));
    b[31] = 2;
    assert!(is_key_after(&b, &a));
    assert!(!is_key_after(&a, &b));
    b[0] = 0;
    assert!(is_key_after(&a, &b));
}

// ── Topics ───────────────────────────────────────────────────────────────────

#[test]
fn server_unregistered_on_leave_last_topic() {
    let mut s = swarm();
    let plan = s.do_join([0xAA; 32], true, false);
    assert!(plan.register);
    let (config, relays) = plan.discovery.unwrap();
    assert_eq!(config.topic, [0xAA; 32]);
    assert!(config.is_server && !config.is_client);
    assert!(relays.is_empty());

    let again = s.do_join([0xAA; 32], true, true);
    assert!(!again.register && again.discovery.is_none());
    assert!(!s.do_join([0xAB; 32], true, false).register);
    assert!(!s.do_join([0xAC; 32], false, true).register);

    let plan = s.do_leave([0xAA; 32]);
    assert!(plan.cancel && !plan.unregister);
    let plan = s.do_leave([0xAB; 32]);
    assert!(plan.cancel && plan.unregister);
    let plan = s.do_leave([0xAB; 32]);
    assert!(!plan.cancel && !plan.unregister);
    assert_eq!(s.joined_topics(), vec![[0xAC; 32]]);
}

#[test]
fn server_unregistered_on_destroy() {
    let mut s = swarm();
    s.do_join([0xBB; 32], true, false);
    assert!(s.destroy());
    assert!(!s.destroy());
}

#[test]
fn joining_announces_the_configured_relay() {
    let mut s = SwarmState::new(ME, 64, 3, Some(peer("198.51.100.10", 49737)));
    let (_, relays) = s.do_join([1; 32], true, true).discovery.unwrap();
    assert_eq!(relays, vec![peer("198.51.100.10", 49737)]);
}

#[test]
fn flush_waits_for_every_topic() {
    let mut s = swarm();
    s.do_join([1; 32], true, true);
    assert!(!s.flush(1));
    s.do_join([2; 32], true, true);
    assert!(!s.flush(2));
    let (_, done) = s.on_refresh_complete([1; 32]);
    assert!(done.is_empty());
    let (_, done) = s.on_refresh_complete([2; 32]);
    assert_eq!(done, vec![1, 2]);
    assert!(s.flush(3));
    assert!(s.all_topics_refreshed());
}

#[test]
fn flush_without_topics_is_done_at_once() {
    let mut s = swarm();
    assert!(s.flush(1));
    assert!(s.all_topics_refreshed());
}

#[test]
fn leaving_the_last_topic_without_a_refresh_answers_those_that_wait() {
    let mut s = swarm();
    s.do_join([1; 32], true, true);
    s.do_join([2; 32], false, true);
    s.on_refresh_complete([1; 32]);
    assert!(!s.flush(5));
    let plan = s.do_leave([1; 32]);
    assert!(plan.unannounce && plan.flushed.is_empty());
    let plan = s.do_leave([2; 32]);
    assert!(!plan.unannounce);
    assert_eq!(plan.flushed, vec![5]);
}

// ── Peers ────────────────────────────────────────────────────────────────────

#[test]
fn peers_are_dialled_by_priority_up_to_the_limit() {
    let mut s = swarm();
    let topic = [1; 32];
    s.do_join(topic, false, true);
    s.on_peer_found([10; 32], vec![peer("1.1.1.1", 1)], topic, Priority::Low);
    s.on_peer_found([11; 32], vec![], topic, Priority::High);
    s.on_peer_found([12; 32], vec![], topic, Priority::Normal);
    s.on_peer_found([13; 32], vec![], topic, Priority::High);
    s.on_peer_found([10; 32], vec![peer("2.2.2.2", 2)], topic, Priority::VeryHigh);
    s.on_peer_found(ME, vec![], topic, Priority::VeryHigh);

    let (dials, _) = s.on_refresh_complete(topic);
    let keys: Vec<u8> = dials.iter().map(|d| d.public_key[0]).collect();
    assert_eq!(keys, vec![11, 13, 12]);

    match s.on_connected([11; 32]) {
        Connected::New { topics, dials } => {
            assert_eq!(topics, vec![topic]);
            assert_eq!(dials.len(), 1);
            assert_eq!(dials[0].public_key, [10; 32]);
            assert_eq!(dials[0].relay_addresses, vec![peer("2.2.2.2", 2)]);
        }
        other => panic!("expected New, got {other:?}"),
    }
}

#[test]
fn a_failed_peer_is_retried_under_its_first_topic() {
    let mut s = swarm();
    s.do_join([1; 32], false, true);
    s.on_peer_found([9; 32], vec![peer("1.1.1.1", 1)], [1; 32], Priority::Normal);
    s.on_peer_found([9; 32], vec![], [2; 32], Priority::Normal);
    s.on_refresh_complete([1; 32]);

    let (retry, dials) = s.on_connect_failed([9; 32]);
    let retry = retry.unwrap();
    assert_eq!(retry.public_key, [9; 32]);
    assert_eq!(retry.topic, [1; 32]);
    assert_eq!(retry.relay_addresses, vec![peer("1.1.1.1", 1)]);
    assert!((15_000..24_000).contains(&retry.delay_ms));
    assert!(dials.is_empty());

    s.on_peer_found([9; 32], vec![], [1; 32], Priority::Normal);
    assert!(s.attempt_connections().is_empty());
    assert!(s.plan_retry([77; 32], 5).is_none());
    assert_eq!(s.plan_retry([9; 32], 5).unwrap().delay_ms, 5);

    s.on_retry_due(retry, Priority::Normal);
    let dials = s.attempt_connections();
    assert_eq!(dials.len(), 1);
    assert_eq!(dials[0].public_key, [9; 32]);
}

#[test]
fn a_peer_without_topics_is_not_retried() {
    let mut s = swarm();
    s.do_join([1; 32], false, true);
    s.on_peer_found([9; 32], vec![], [1; 32], Priority::Normal);
    s.on_refresh_complete([1; 32]);
    s.do_leave([1; 32]);
    let (retry, _) = s.on_connect_failed([9; 32]);
    assert!(retry.is_none());
}

#[test]
fn crossing_connections_keep_the_one_of_the_greater_key() {
    for (other, keeps) in [([9u8; 32], true), ([1u8; 32], false)] {
        let mut s = swarm();
        assert_eq!(s.accept_inbound(other, true), Admission::Accepted);
        match s.on_connected(other) {
            Connected::KeptExisting => assert!(keeps),
            Connected::AtCapacity { .. } => panic!("there is room"),
            Connected::New { topics, .. } => {
                assert!(!keeps);
                assert!(topics.is_empty());
            }
        }
    }
}

#[test]
fn a_dialled_connection_beyond_the_limit_is_dropped() {
    let mut s = SwarmState::new(ME, 1, 3, None);
    s.do_join([1; 32], false, true);
    s.on_peer_found([8; 32], vec![], [1; 32], Priority::Normal);
    s.on_refresh_complete([1; 32]);
    assert_eq!(s.accept_inbound([2; 32], true), Admission::Accepted);
    assert!(matches!(s.on_connected([8; 32]), Connected::AtCapacity { .. }));
    assert_eq!(s.connected_peers(), vec![[2; 32]]);
}

#[test]
fn inbound_connections_fill_the_slots() {
    let mut s = SwarmState::new(ME, 2, 3, None);
    assert_eq!(s.accept_inbound([1; 32], false), Admission::NoStream);
    assert_eq!(s.accept_inbound([1; 32], true), Admission::Accepted);
    assert_eq!(s.accept_inbound([1; 32], true), Admission::AlreadyConnected);
    assert_eq!(s.accept_inbound([2; 32], true), Admission::Accepted);
    assert_eq!(s.accept_inbound([3; 32], true), Admission::AtCapacity);
    assert!(s.release_slot(&[2; 32]));
    assert!(!s.release_slot(&[2; 32]));
    assert_eq!(s.accept_inbound([3; 32], true), Admission::Accepted);

    s.do_join([1; 32], false, true);
    s.on_peer_found([8; 32], vec![], [1; 32], Priority::Normal);
    assert!(s.attempt_connections().is_empty());
}

// ── Handshakes ───────────────────────────────────────────────────────────────

#[test]
fn replies_are_routed_by_the_inbound_mode() {
    assert_eq!(reply_mode(MODE_FROM_CLIENT), MODE_REPLY);
    assert_eq!(reply_mode(MODE_FROM_RELAY), MODE_FROM_SERVER);
    assert_eq!(reply_mode(MODE_FROM_SECOND_RELAY), MODE_FROM_SERVER);
    assert_eq!(reply_mode(99), MODE_REPLY);
    let a = peer("1.1.1.1", 1);
    assert_eq!(reply_peer_address(MODE_FROM_RELAY, Some(a.clone())), Some(a.clone()));
    assert_eq!(reply_peer_address(MODE_FROM_CLIENT, Some(a)), None);
}

#[test]
fn holepunches_are_prepared_only_behind_a_known_nat() {
    assert!(attempts_holepunch(Some(FIREWALL_CONSISTENT), false));
    assert!(attempts_holepunch(Some(FIREWALL_RANDOM), false));
    assert!(!attempts_holepunch(Some(FIREWALL_RANDOM), true));
    assert!(!attempts_holepunch(Some(FIREWALL_OPEN), false));
    assert!(!attempts_holepunch(Some(FIREWALL_UNKNOWN), false));
    assert!(!attempts_holepunch(None, false));
}

fn config(relay_through: Option<[u8; 32]>) -> HandshakeConfig {
    HandshakeConfig {
        firewall: 2,
        local_port: 40,
        relay_through,
        relay_address: relay_through.map(|_| peer("8.8.8.8", 8)),
    }
}

fn remote(error: u64, id: Option<u64>) -> Option<RemotePayload> {
    let udx = id.map(|id| UdxInfo { version: 1, reusable_socket: true, id, seq: 0 });
    Some(RemotePayload { error, firewall: 3, udx })
}

#[test]
fn unreadable_handshakes_are_declined_without_using_an_id() {
    let mut ids = StreamIds::new();
    for r in [None, remote(1, Some(5))] {
        let h = ReceivedHandshake::new(0, peer("1.1.1.1", 1), None);
        assert!(h.read(r, &config(None), &mut ids).unwrap_err().abort.is_none());
    }
    let h = ReceivedHandshake::new(0, peer("1.1.1.1", 1), None);
    assert_eq!(h.read(remote(0, None), &config(None), &mut ids).unwrap().local_stream_id, 1);
}

#[test]
fn a_direct_handshake_takes_a_slot() {
    let mut ids = StreamIds::new();
    let mut s = swarm();
    let from = peer("1.1.1.1", 1);
    let real = peer("2.2.2.2", 2);
    let h = ReceivedHandshake::new(MODE_FROM_RELAY, from, Some(real.clone()));
    assert_eq!(h.client, real);
    let h = h.read(remote(0, Some(5)), &config(None), &mut ids).unwrap();
    assert!(h.wants_punch(Some(FIREWALL_RANDOM)));
    assert!(!h.wants_punch(Some(FIREWALL_OPEN)));
    let h = h.stage(None);
    assert_eq!(h.port(&config(None)), 40);
    let p = h.payload(&config(None), vec![peer("10.0.0.1", 40)], &vec![]);
    assert_eq!((p.version, p.error, p.firewall), (1, 0, 2));
    assert!(p.holepunch.is_none() && p.relay_through.is_none() && p.relay_addresses.is_none());
    let h = h.written(Some(vec![1, 2])).unwrap();
    let (reply, next) = h.conclude(Some([7; 32]), &mut s).unwrap();
    assert_eq!(reply.mode, MODE_FROM_SERVER);
    assert_eq!(reply.noise, vec![1, 2]);
    assert_eq!(reply.peer_address, Some(real));
    match next {
        Followup::Direct { remote, local_stream_id } => {
            assert_eq!((remote.id, local_stream_id), (5, 1));
        }
        other => panic!("expected Direct, got {other:?}"),
    }
    assert_eq!(s.accept_inbound([7; 32], true), Admission::AlreadyConnected);
}

#[test]
fn a_relayed_handshake_carries_a_fresh_token() {
    let mut ids = StreamIds::new();
    let mut s = swarm();
    let mut tokens = Vec::new();
    for i in 0..2 {
        let h = ReceivedHandshake::new(MODE_FROM_CLIENT, peer("1.1.1.1", 1), None);
        let h = h.read(remote(0, Some(5)), &config(Some([3; 32])), &mut ids).unwrap();
        assert!(!h.wants_punch(Some(FIREWALL_RANDOM)));
        let h = h.stage(None);
        let p = h.payload(&config(Some([3; 32])), vec![], &vec![]);
        let told = p.relay_through.unwrap();
        assert_eq!(told.public_key, [3; 32]);
        assert_eq!(p.relay_addresses, Some(vec![peer("8.8.8.8", 8)]));
        let h = h.written(Some(vec![])).unwrap();
        let (reply, next) = h.conclude(Some([i; 32]), &mut s).unwrap();
        assert_eq!((reply.mode, reply.peer_address), (MODE_REPLY, None));
        match next {
            Followup::ThroughRelay { relay, .. } => assert_eq!(relay.token, told.token),
            other => panic!("expected ThroughRelay, got {other:?}"),
        }
        tokens.push(told.token);
    }
    assert!(tokens[0] != tokens[1]);
}

#[test]
fn a_staged_handshake_waits_for_its_punch() {
    let mut ids = StreamIds::new();
    let mut s = swarm();
    let staged = Some(StagedPunch { id: 12, port: 99 });
    let stage = |ids: &mut StreamIds| {
        ReceivedHandshake::new(MODE_FROM_CLIENT, peer("1.1.1.1", 1), None)
            .read(remote(0, Some(5)), &config(None), ids)
            .unwrap()
            .stage(staged)
    };
    let h = stage(&mut ids);
    assert_eq!(h.port(&config(None)), 99);
    let p = h.payload(&config(None), vec![], &vec![peer("9.9.9.9", 9)]);
    let info = p.holepunch.unwrap();
    assert_eq!(info.id, 12);
    assert_eq!(info.relays[0].peer_address, peer("1.1.1.1", 1));
    assert_eq!(h.written(None).unwrap_err().abort, Some(12));
    let h = stage(&mut ids).written(Some(vec![])).unwrap();
    assert_eq!(h.conclude(None, &mut s).unwrap_err().abort, Some(12));
    let h = stage(&mut ids).written(Some(vec![])).unwrap();
    let (_, next) = h.conclude(Some([7; 32]), &mut s).unwrap();
    assert!(matches!(next, Followup::AwaitPunch(p) if p.id == 12));
    assert_eq!(s.accept_inbound([7; 32], true), Admission::Accepted);
}

#[test]
fn a_handshake_without_a_stream_is_refused_after_the_reply() {
    let mut ids = StreamIds::new();
    let mut s = swarm();
    let h = ReceivedHandshake::new(0, peer("1.1.1.1", 1), None)
        .read(remote(0, None), &config(None), &mut ids)
        .unwrap()
        .stage(None)
        .written(Some(vec![]))
        .unwrap();
    let (_, next) = h.conclude(Some([7; 32]), &mut s).unwrap();
    assert!(matches!(next, Followup::Refused(Admission::NoStream)));
}

#[test]
fn connections_through_a_relay() {
    assert!(matches!(relay_route(None), RelayRoute::Lookup));
    assert!(matches!(relay_route(Some(peer("a", 1))), RelayRoute::Direct(_)));
    assert!(matches!(relay_dialled(RelayDial::TimedOut), Err(RelayConnectError::Timeout)));
    assert!(matches!(relay_dialled(RelayDial::Failed), Err(RelayConnectError::DialFailed)));
    assert!(matches!(
        relay_dialled(RelayDial::Connected(None)),
        Err(RelayConnectError::NoRemoteAddress)
    ));
    assert_eq!(relay_dialled(RelayDial::Connected(Some(peer("a", 1)))).unwrap(), peer("a", 1));

    let (mut client, _) = BlindRelayClient::open(None);
    match relay_pair_request(&mut client, &[4; 32], 6) {
        ChannelCommand::Send { message_type, data } => {
            assert_eq!(message_type, MSG_TYPE_PAIR);
            assert_eq!((data[0], data[33]), (1, 6));
        }
        other => panic!("expected Send, got {other:?}"),
    }
    assert!(relay_paired(PairStep::Waiting).is_none());
    assert!(matches!(
        relay_paired(PairStep::Failed(RelayError::ChannelClosed)),
        Some(Err(RelayConnectError::Relay(RelayError::ChannelClosed)))
    ));
}

#[test]
fn commands_and_shutdown() {
    let mut s = swarm();
    let join = SwarmCommand::Join { topic: [1; 32], server: true, client: true };
    assert!(matches!(s.handle_command(join), CommandOutcome::Joined(p) if p.register));
    let flush = SwarmCommand::Flush { waiter: 4 };
    assert!(matches!(s.handle_command(flush), CommandOutcome::Flushed(false)));
    s.handle_command(SwarmCommand::Join { topic: [2; 32], server: false, client: true });
    let leave = SwarmCommand::Leave { topic: [9; 32] };
    assert!(matches!(s.handle_command(leave), CommandOutcome::Left(p) if !p.cancel));
    s.accept_inbound([7; 32], true);
    let mut plan = s.shutdown();
    plan.topics.sort();
    assert_eq!(plan.topics, vec![[1; 32], [2; 32]]);
    assert_eq!(plan.connections, vec![[7; 32]]);
    assert!(plan.unregister);
    assert!(s.connected_peers().is_empty());
    assert!(matches!(s.handle_command(SwarmCommand::Destroy), CommandOutcome::Destroyed(false)));
}

#[test]
fn the_announced_port_is_that_of_the_stream_socket() {
    assert_eq!(primary_port(1, Some(Some(2))), 2);
    assert_eq!(primary_port(1, Some(None)), 1);
    assert_eq!(primary_port(1, None), 1);
}

#[test]
fn the_reply_payload_carries_what_was_prepared() {
    let info = holepunch_info(7, &vec![peer("9.9.9.9", 9)], &peer("2.2.2.2", 2));
    assert_eq!(info.id, 7);
    assert_eq!(info.relays[0].relay_address, peer("9.9.9.9", 9));
    assert_eq!(info.relays[0].peer_address, peer("2.2.2.2", 2));
    let relay = relay_through_with(Some([3; 32]), [4; 32]);
    let relay_addr = peer("8.8.8.8", 8);
    let p = server_payload(
        2,
        Some(info),
        vec![peer("10.0.0.1", 1)],
        77,
        relay,
        Some(&relay_addr),
    );
    assert_eq!((p.version, p.error, p.firewall), (1, 0, 2));
    assert_eq!(p.udx.unwrap().id, 77);
    assert!(p.udx.unwrap().reusable_socket);
    assert_eq!(p.secret_stream.unwrap().version, 1);
    assert_eq!(p.relay_through.unwrap().public_key, [3; 32]);
    assert_eq!(p.relay_through.unwrap().token, [4; 32]);
    assert_eq!(p.relay_addresses.unwrap(), vec![relay_addr]);
    assert_eq!(p.holepunch.unwrap().id, 7);
}

#[test]
fn stream_ids_have_to_fit() {
    let udx = |id| Some(UdxInfo { version: 1, reusable_socket: true, id, seq: 0 });
    assert_eq!(peer_stream_id(None), Err(PeerStreamError::NoStream));
    assert_eq!(peer_stream_id(udx(0xffff_ffff)), Ok(0xffff_ffff));
    assert_eq!(
        peer_stream_id(udx(0x1_0000_0000)),
        Err(PeerStreamError::RemoteIdOutOfRange)
    );
    assert_eq!(relayed_stream_id(5), Ok(5));
    assert_eq!(
        relayed_stream_id(u64::MAX).map_err(|e| e.message()),
        Err("relay remote_id out of u32 range")
    );
    assert_eq!(narrow_id(1 << 32), None);
}

// ── Holepunches ──────────────────────────────────────────────────────────────

fn round(round: u64, punching: bool) -> HolepunchPayload {
    HolepunchPayload {
        error: 0,
        firewall: 2,
        round,
        connected: true,
        punching,
        addresses: None,
        remote_address: None,
        token: Some([6; 32]),
        remote_token: None,
    }
}

#[test]
fn a_new_handshake_replaces_the_holepunch_of_the_same_peer() {
    let mut p = PassivePunches::new();
    let first = p.reserve_id();
    let second = p.reserve_id();
    assert_eq!((first, second), (0, 1));
    assert_eq!(p.commit(first, [1; 32], vec![]), None);
    assert_eq!(p.commit(second, [1; 32], vec![]), Some(first));
    assert!(!p.knows(first));
    assert!(p.knows(second));
    assert_eq!(p.on_abort(first), None);
    assert_eq!(p.on_abort(second), Some(([1; 32], true)));
    assert_eq!(p.commit(5, [1; 32], vec![]), None);
}

#[test]
fn punching_begins_once() {
    let mut p = PassivePunches::new();
    let id = p.reserve_id();
    assert!(p.on_round(id, 1, true).is_none());
    p.commit(id, [1; 32], vec![peer("3.3.3.3", 3)]);
    let plan = p.on_round(id, 1, false).unwrap();
    assert!(plan.update_puncher && !plan.start_punching);
    let plan = p.on_round(id, 2, true).unwrap();
    assert!(plan.update_puncher && plan.start_punching);
    let plan = p.on_round(id, 3, true).unwrap();
    assert!(!plan.update_puncher && !plan.start_punching);
    assert_eq!(p.on_abort(id), Some(([1; 32], false)));
}

#[test]
fn round_replies_echo_the_round() {
    let mut p = PassivePunches::new();
    p.commit(4, [1; 32], vec![peer("3.3.3.3", 3)]);
    let from = peer("2.2.2.2", 2);
    assert!(p.round_reply(9, None, &round(1, true), from.clone(), [8; 32]).is_none());
    let r = p.round_reply(4, None, &round(3, true), from.clone(), [8; 32]).unwrap();
    assert_eq!((r.error, r.firewall, r.round), (0, FIREWALL_UNKNOWN, 3));
    assert!(r.punching && !r.connected);
    assert_eq!(r.addresses, Some(vec![peer("3.3.3.3", 3)]));
    assert_eq!(r.remote_address, Some(from.clone()));
    assert_eq!(r.token, Some([8; 32]));
    assert_eq!(r.remote_token, Some([6; 32]));
    let r = p.round_reply(4, Some(3), &round(3, false), from.clone(), [8; 32]).unwrap();
    assert_eq!(r.firewall, 3);
    assert!(punch_reply(MODE_FROM_RELAY, 4, None, from.clone()).is_none());
    let m = punch_reply(MODE_FROM_RELAY, 4, Some(vec![1]), from.clone()).unwrap();
    assert_eq!((m.mode, m.id, m.payload), (MODE_FROM_SERVER, 4, vec![1]));
    assert_eq!(m.peer_address, Some(from));
}

#[test]
fn a_landed_holepunch_takes_a_slot() {
    let mut s = SwarmState::new(ME, 1, 3, None);
    let mut p = PassivePunches::new();
    p.commit(0, [1; 32], vec![]);
    p.commit(1, [2; 32], vec![]);
    p.commit(2, [3; 32], vec![]);
    assert!(matches!(p.on_punched(9, &mut s), Landed::Unknown));
    assert!(matches!(p.on_punched(0, &mut s), Landed::Finalize(pk) if pk == [1; 32]));
    assert!(matches!(p.on_punched(0, &mut s), Landed::Unknown));
    assert!(matches!(p.on_punched(1, &mut s), Landed::AtCapacity(pk) if pk == [2; 32]));
    s.release_slot(&[1; 32]);
    s.accept_inbound([3; 32], true);
    assert!(matches!(p.on_punched(2, &mut s), Landed::AlreadyConnected(pk) if pk == [3; 32]));
}

#[test]
fn found_peers_are_dialled_when_the_refresh_is_done() {
    let mut s = swarm();
    let topic = [1; 32];
    s.do_join(topic, false, true);
    assert!(!s.flush(7));
    let found = DiscoveryEvent::PeerFound {
        public_key: [10; 32],
        relay_addresses: vec![peer("1.1.1.1", 1)],
        topic,
    };
    let (dials, done) = s.handle_discovery_event(found, Priority::Normal);
    assert!(dials.is_empty());
    assert!(done.is_empty());
    let finished = DiscoveryEvent::RefreshComplete { topic };
    let (dials, done) = s.handle_discovery_event(finished, Priority::Normal);
    assert_eq!(dials.len(), 1);
    assert_eq!(dials[0].public_key, [10; 32]);
    assert_eq!(dials[0].relay_addresses, vec![peer("1.1.1.1", 1)]);
    assert_eq!(done, vec![7]);
}
