use peeroxide::compact_encoding::EncodingError;
use peeroxide::hyperdht_messages::{
    FIREWALL_CONSISTENT, FIREWALL_OPEN, FIREWALL_RANDOM, FIREWALL_UNKNOWN,
};
use peeroxide::messages::{decode_response, encode_response_to_bytes, Ipv4Peer, Response};
use peeroxide::socket_pool::{
    classify_inbound, coerce_firewall, holepunch_message, holepunch_ttl, port_of_draw, random_port,
    socket_address, InboundClass, SocketPool,
};

fn response() -> Response {
    Response {
        tid: 1,
        to: Ipv4Peer { host: "127.0.0.1".into(), port: 9000 },
        id: None,
        token: None,
        closer_nodes: vec![],
        error: 0,
        value: None,
    }
}

#[test]
fn coerce_open_to_consistent() {
    assert_eq!(coerce_firewall(FIREWALL_OPEN), FIREWALL_CONSISTENT);
}

#[test]
fn coerce_consistent_unchanged() {
    assert_eq!(coerce_firewall(FIREWALL_CONSISTENT), FIREWALL_CONSISTENT);
}

#[test]
fn coerce_random_unchanged() {
    assert_eq!(coerce_firewall(FIREWALL_RANDOM), FIREWALL_RANDOM);
}

#[test]
fn coerce_unknown_unchanged() {
    assert_eq!(coerce_firewall(FIREWALL_UNKNOWN), FIREWALL_UNKNOWN);
}

#[test]
fn demux_routes_one_byte_to_holepunch() {
    let buf = [0u8; 1];
    assert_eq!(classify_inbound(&buf), InboundClass::Holepunch);
    assert_eq!(classify_inbound(&[]), InboundClass::Holepunch);
    assert_eq!(classify_inbound(&holepunch_message()), InboundClass::Holepunch);
}

#[test]
fn demux_drops_udx_framed_packet() {
    let mut buf = vec![0u8; 25];
    buf[0] = 0xFF;
    assert_eq!(classify_inbound(&buf), InboundClass::UdxFrame);
}

#[test]
fn demux_routes_dht_response_to_reply_lane() {
    let buf = encode_response_to_bytes(&response()).unwrap();
    assert_eq!(classify_inbound(&buf), InboundClass::DhtResponse);
}

#[test]
fn demux_drops_everything_else() {
    assert_eq!(classify_inbound(&[0xff; 19]), InboundClass::Drop);
    assert_eq!(classify_inbound(&[0x03, 0, 0, 0]), InboundClass::Drop);
    let buf = encode_response_to_bytes(&response()).unwrap();
    for n in 2..buf.len() {
        assert_eq!(classify_inbound(&buf[..n]), InboundClass::Drop);
    }
}

#[test]
fn response_wire_form() {
    let buf = encode_response_to_bytes(&response()).unwrap();
    assert_eq!(buf, vec![0x13, 0, 1, 0, 127, 0, 0, 1, 0x28, 0x23]);
}

#[test]
fn response_roundtrip_with_all_parts() {
    let full = Response {
        tid: 0x0102,
        to: Ipv4Peer { host: "10.20.30.40".into(), port: 1 },
        id: Some([1; 32]),
        token: Some([2; 32]),
        closer_nodes: vec![
            Ipv4Peer { host: "1.2.3.4".into(), port: 5 },
            Ipv4Peer { host: "250.0.99.100".into(), port: 65535 },
        ],
        error: 300,
        value: Some(vec![9, 8, 7]),
    };
    let buf = encode_response_to_bytes(&full).unwrap();
    assert_eq!(buf[1], 31);
    let back = decode_response(&buf).unwrap();
    assert_eq!(back.tid, full.tid);
    assert_eq!(back.to, full.to);
    assert_eq!(back.id, full.id);
    assert_eq!(back.token, full.token);
    assert_eq!(back.closer_nodes, full.closer_nodes);
    assert_eq!(back.error, full.error);
    assert_eq!(back.value, full.value);
    assert_eq!(classify_inbound(&buf), InboundClass::DhtResponse);
}

#[test]
fn an_empty_value_reads_back_as_none() {
    let mut r = response();
    r.value = Some(vec![]);
    let buf = encode_response_to_bytes(&r).unwrap();
    assert_eq!(buf[1], 16);
    assert_eq!(decode_response(&buf).unwrap().value, None);
}

#[test]
fn response_errors() {
    let mut r = response();
    r.to.host = "localhost".into();
    assert_eq!(encode_response_to_bytes(&r).err(), Some(EncodingError::InvalidAddress));
    let mut r = response();
    r.closer_nodes = vec![Ipv4Peer { host: "::1".into(), port: 1 }];
    assert_eq!(encode_response_to_bytes(&r).err(), Some(EncodingError::InvalidAddress));
    assert_eq!(decode_response(&[]).err(), Some(EncodingError::OutOfBounds));
    assert_eq!(decode_response(&[0x03, 1]).err(), Some(EncodingError::UnknownType));
    assert_eq!(decode_response(&[0x13, 1]).err(), Some(EncodingError::OutOfBounds));
}

#[test]
fn probes_and_addresses() {
    assert_eq!(holepunch_ttl(true), 5);
    assert_eq!(holepunch_ttl(false), 64);
    assert_eq!(holepunch_message(), vec![0]);
    assert_eq!(SocketPool::new("0.0.0.0".to_string()).bind_address(), "0.0.0.0:0");
    assert_eq!(socket_address("1.2.3.4", 49737), "1.2.3.4:49737");
    assert_eq!(socket_address("h", 10), "h:10");
}

#[test]
fn random_port_in_range() {
    for _ in 0..1000 {
        let p = random_port();
        assert!(p >= 1000);
    }
}

#[test]
fn random_ports_differ() {
    let first = random_port();
    assert!((0..100).any(|_| random_port() != first));
}

#[test]
fn draws_cover_the_ports_from_a_thousand_up() {
    assert_eq!(port_of_draw(0), 1000);
    assert_eq!(port_of_draw(1), 1001);
    assert_eq!(port_of_draw(64535), 65535);
}
