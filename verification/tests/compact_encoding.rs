use peeroxide::compact_encoding::{
    decode_bool, decode_buffer, decode_fixed32, decode_fixed64, decode_float64, decode_int,
    decode_ip, decode_ipv4, decode_ipv4_address, decode_ipv6, decode_string, decode_string_array, decode_uint,
    decode_uint16, decode_uint24, decode_uint32, decode_uint64, decode_uint8, decode_uint_array,
    encode_bool, encode_buffer, encode_fixed32, encode_fixed64, encode_float64, encode_int,
    encode_ip, encode_ipv4, encode_ipv4_address, encode_ipv6, encode_string, encode_string_array, encode_uint,
    encode_uint16, encode_uint24, encode_uint32, encode_uint64, encode_uint8, encode_uint_array,
    preencode_bool, preencode_buffer, preencode_fixed32, preencode_fixed64, preencode_float64,
    preencode_int, preencode_ip, preencode_ipv4, preencode_ipv4_address, preencode_ipv6, preencode_string,
    preencode_string_array, preencode_uint, preencode_uint16, preencode_uint24, preencode_uint32,
    preencode_uint64, preencode_uint8, preencode_uint_array, zigzag_decode, zigzag_encode,
    EncodingError, State,
};

fn encode_value_with_pre(
    pre_fn: impl FnOnce(&mut State),
    enc_fn: impl FnOnce(&mut State),
) -> Vec<u8> {
    let mut state = State::new();
    pre_fn(&mut state);
    state.allocate();
    enc_fn(&mut state);
    state.buffer
}

#[test]
fn uint8_roundtrip() {
    for val in [0u8, 1, 127, 128, 255] {
        let buf = encode_value_with_pre(|s| preencode_uint8(s, val), |s| encode_uint8(s, val));
        assert_eq!(buf, vec![val]);
        let mut state = State::from_buffer(&buf);
        assert_eq!(decode_uint8(&mut state).unwrap(), val);
    }
}

#[test]
fn uint16_little_endian() {
    let buf =
        encode_value_with_pre(|s| preencode_uint16(s, 0x0102), |s| encode_uint16(s, 0x0102));
    assert_eq!(buf, vec![0x02, 0x01]);
    let mut state = State::from_buffer(&buf);
    assert_eq!(decode_uint16(&mut state).unwrap(), 0x0102);
}

#[test]
fn uint24_little_endian() {
    let buf =
        encode_value_with_pre(|s| preencode_uint24(s, 0x010203), |s| encode_uint24(s, 0x010203));
    assert_eq!(buf, vec![0x03, 0x02, 0x01]);
    let mut state = State::from_buffer(&buf);
    assert_eq!(decode_uint24(&mut state).unwrap(), 0x010203);
}

#[test]
fn uint32_little_endian() {
    let buf = encode_value_with_pre(
        |s| preencode_uint32(s, 0x01020304),
        |s| encode_uint32(s, 0x01020304),
    );
    assert_eq!(buf, vec![0x04, 0x03, 0x02, 0x01]);
    let mut state = State::from_buffer(&buf);
    assert_eq!(decode_uint32(&mut state).unwrap(), 0x01020304);
}

#[test]
fn uint64_little_endian() {
    let buf = encode_value_with_pre(
        |s| preencode_uint64(s, 0x0102030405060708),
        |s| encode_uint64(s, 0x0102030405060708),
    );
    assert_eq!(buf, vec![0x08, 0x07, 0x06, 0x05, 0x04, 0x03, 0x02, 0x01]);
    let mut state = State::from_buffer(&buf);
    assert_eq!(decode_uint64(&mut state).unwrap(), 0x0102030405060708);
}

#[test]
fn uint_varint_1_byte() {
    for val in [0u64, 1, 100, 252] {
        let buf = encode_value_with_pre(|s| preencode_uint(s, val), |s| encode_uint(s, val));
        assert_eq!(buf.len(), 1);
        assert_eq!(buf[0], val as u8);
        let mut state = State::from_buffer(&buf);
        assert_eq!(decode_uint(&mut state).unwrap(), val);
    }
}

#[test]
fn uint_varint_3_byte() {
    for val in [253u64, 1000, 65535] {
        let buf = encode_value_with_pre(|s| preencode_uint(s, val), |s| encode_uint(s, val));
        assert_eq!(buf.len(), 3);
        assert_eq!(buf[0], 0xfd);
        let mut state = State::from_buffer(&buf);
        assert_eq!(decode_uint(&mut state).unwrap(), val);
    }
}

#[test]
fn uint_varint_5_byte() {
    for val in [65536u64, 100_000, 0xffffffff] {
        let buf = encode_value_with_pre(|s| preencode_uint(s, val), |s| encode_uint(s, val));
        assert_eq!(buf.len(), 5);
        assert_eq!(buf[0], 0xfe);
        let mut state = State::from_buffer(&buf);
        assert_eq!(decode_uint(&mut state).unwrap(), val);
    }
}

#[test]
fn uint_varint_9_byte() {
    let val = 0x100000000u64;
    let buf = encode_value_with_pre(|s| preencode_uint(s, val), |s| encode_uint(s, val));
    assert_eq!(buf.len(), 9);
    assert_eq!(buf[0], 0xff);
    let mut state = State::from_buffer(&buf);
    assert_eq!(decode_uint(&mut state).unwrap(), val);
}

#[test]
fn zigzag_encoding() {
    assert_eq!(zigzag_encode(0), 0);
    assert_eq!(zigzag_encode(-1), 1);
    assert_eq!(zigzag_encode(1), 2);
    assert_eq!(zigzag_encode(-2), 3);
    assert_eq!(zigzag_encode(2), 4);

    assert_eq!(zigzag_decode(0), 0);
    assert_eq!(zigzag_decode(1), -1);
    assert_eq!(zigzag_decode(2), 1);
    assert_eq!(zigzag_decode(3), -2);
    assert_eq!(zigzag_decode(4), 2);
}

#[test]
fn int_roundtrip() {
    for val in [0i64, 1, -1, 127, -128, 1000, -1000, i64::MAX, i64::MIN] {
        let buf = encode_value_with_pre(|s| preencode_int(s, val), |s| encode_int(s, val));
        let mut state = State::from_buffer(&buf);
        assert_eq!(decode_int(&mut state).unwrap(), val);
    }
}

#[test]
fn float64_roundtrip() {
    for val in [0.0f64, 1.5, -1.5, std::f64::consts::PI, f64::MAX, f64::MIN] {
        let buf = encode_value_with_pre(
            |s| preencode_float64(s, val.to_bits()),
            |s| encode_float64(s, val.to_bits()),
        );
        assert_eq!(buf, val.to_le_bytes().to_vec());
        let mut state = State::from_buffer(&buf);
        assert_eq!(f64::from_bits(decode_float64(&mut state).unwrap()), val);
    }
}

#[test]
fn bool_roundtrip() {
    for val in [true, false] {
        let buf = encode_value_with_pre(|s| preencode_bool(s, val), |s| encode_bool(s, val));
        let mut state = State::from_buffer(&buf);
        assert_eq!(decode_bool(&mut state).unwrap(), val);
    }
}

#[test]
fn buffer_some() {
    let data = b"hello world";
    let buf = encode_value_with_pre(
        |s| preencode_buffer(s, Some(data.as_slice())),
        |s| encode_buffer(s, Some(data.as_slice())),
    );
    let mut state = State::from_buffer(&buf);
    assert_eq!(decode_buffer(&mut state).unwrap(), Some(data.to_vec()));
}

#[test]
fn buffer_none() {
    let buf = encode_value_with_pre(|s| preencode_buffer(s, None), |s| encode_buffer(s, None));
    assert_eq!(buf, vec![0x00]);
    let mut state = State::from_buffer(&buf);
    assert_eq!(decode_buffer(&mut state).unwrap(), None);
}

#[test]
fn string_roundtrip() {
    for val in ["", "hello", "hello world 🌍", "a".repeat(1000).as_str()] {
        let buf = encode_value_with_pre(|s| preencode_string(s, val), |s| encode_string(s, val));
        let mut state = State::from_buffer(&buf);
        assert_eq!(decode_string(&mut state).unwrap(), val);
    }
}

#[test]
fn fixed32_roundtrip() {
    let data = [42u8; 32];
    let buf = encode_value_with_pre(
        |s| {
            preencode_fixed32(s, &data).unwrap();
        },
        |s| encode_fixed32(s, &data),
    );
    assert_eq!(buf.len(), 32);
    let mut state = State::from_buffer(&buf);
    assert_eq!(decode_fixed32(&mut state).unwrap(), data);
}

#[test]
fn fixed64_roundtrip() {
    let data = [99u8; 64];
    let buf = encode_value_with_pre(
        |s| {
            preencode_fixed64(s, &data).unwrap();
        },
        |s| encode_fixed64(s, &data),
    );
    assert_eq!(buf.len(), 64);
    let mut state = State::from_buffer(&buf);
    assert_eq!(decode_fixed64(&mut state).unwrap(), data);
}

#[test]
fn ipv4_roundtrip() {
    for addr in ["127.0.0.1", "192.168.1.1", "0.0.0.0", "255.255.255.255"] {
        let buf = encode_value_with_pre(
            |s| preencode_ipv4(s, addr),
            |s| encode_ipv4(s, addr).unwrap(),
        );
        assert_eq!(buf.len(), 4);
        let mut state = State::from_buffer(&buf);
        assert_eq!(decode_ipv4(&mut state).unwrap(), addr);
    }
}

#[test]
fn uint_array_roundtrip() {
    let arr = vec![0u64, 1, 252, 253, 65535, 65536, 0xffffffff, 0x100000000];
    let buf = encode_value_with_pre(
        |s| preencode_uint_array(s, &arr),
        |s| encode_uint_array(s, &arr),
    );
    let mut state = State::from_buffer(&buf);
    assert_eq!(decode_uint_array(&mut state).unwrap(), arr);
}

#[test]
fn string_array_roundtrip() {
    let arr = vec!["hello", "world", "", "🌍"];
    let buf = encode_value_with_pre(
        |s| preencode_string_array(s, &arr),
        |s| encode_string_array(s, &arr),
    );
    let mut state = State::from_buffer(&buf);
    assert_eq!(
        decode_string_array(&mut state).unwrap(),
        arr.iter().map(|s| s.to_string()).collect::<Vec<_>>()
    );
}

#[test]
fn ipv4_address_roundtrip() {
    let buf = encode_value_with_pre(
        |s| preencode_ipv4_address(s, "10.0.0.1", 8080),
        |s| encode_ipv4_address(s, "10.0.0.1", 8080).unwrap(),
    );
    assert_eq!(buf.len(), 6);
    let mut state = State::from_buffer(&buf);
    let (addr, port) = decode_ipv4_address(&mut state).unwrap();
    assert_eq!(addr, "10.0.0.1");
    assert_eq!(port, 8080);
}

#[test]
fn out_of_bounds_error() {
    let mut state = State::from_buffer(&[]);
    assert!(decode_uint8(&mut state).is_err());

    let mut state = State::from_buffer(&[0x01]);
    assert!(decode_uint16(&mut state).is_err());
}

#[test]
fn multiple_values_sequential() {
    let mut state = State::new();
    preencode_uint(&mut state, 42);
    preencode_string(&mut state, "hello");
    preencode_bool(&mut state, true);
    state.allocate();
    encode_uint(&mut state, 42);
    encode_string(&mut state, "hello");
    encode_bool(&mut state, true);

    let mut dec = State::from_buffer(&state.buffer);
    assert_eq!(decode_uint(&mut dec).unwrap(), 42);
    assert_eq!(decode_string(&mut dec).unwrap(), "hello");
    assert!(decode_bool(&mut dec).unwrap());
    assert_eq!(dec.start, dec.end);
}

#[test]
fn exact_wire_forms() {
    let uint = |v| encode_value_with_pre(|s| preencode_uint(s, v), |s| encode_uint(s, v));
    assert_eq!(uint(0x1234), vec![0xfd, 0x34, 0x12]);
    assert_eq!(uint(0x12345678), vec![0xfe, 0x78, 0x56, 0x34, 0x12]);
    assert_eq!(
        uint(0x0102030405060708),
        vec![0xff, 8, 7, 6, 5, 4, 3, 2, 1]
    );
    let int = |v| encode_value_with_pre(|s| preencode_int(s, v), |s| encode_int(s, v));
    assert_eq!(int(-2), vec![3]);
    let text = encode_value_with_pre(|s| preencode_string(s, "é"), |s| encode_string(s, "é"));
    assert_eq!(text, vec![2, 0xc3, 0xa9]);
    let ip = encode_value_with_pre(
        |s| preencode_ipv4_address(s, "10.0.0.1", 0x1f90),
        |s| encode_ipv4_address(s, "10.0.0.1", 0x1f90).unwrap(),
    );
    assert_eq!(ip, vec![10, 0, 0, 1, 0x90, 0x1f]);
    let low = encode_value_with_pre(
        |s| preencode_uint24(s, 0xff010203),
        |s| encode_uint24(s, 0xff010203),
    );
    assert_eq!(low, vec![3, 2, 1]);
}

#[test]
fn errors_of_decoding() {
    let mut state = State::from_buffer(&[2, 0xff, 0xfe]);
    assert_eq!(decode_string(&mut state), Err(EncodingError::InvalidUtf8));
    let mut state = State::from_buffer(&[3, 1, 2]);
    assert_eq!(decode_buffer(&mut state), Err(EncodingError::OutOfBounds));
    let mut state = State::from_buffer(&[0xfe, 1, 2]);
    assert_eq!(decode_uint(&mut state), Err(EncodingError::OutOfBounds));
    let mut state = State::from_buffer(&[2, 1, b'a', 1, 0xff]);
    assert_eq!(decode_string_array(&mut state), Err(EncodingError::InvalidUtf8));
    let mut state = State::from_buffer(&[2, 1, b'a']);
    assert_eq!(decode_string_array(&mut state), Err(EncodingError::OutOfBounds));
    let mut state = State::from_buffer(&[3, 1, 2]);
    assert_eq!(decode_uint_array(&mut state), Err(EncodingError::OutOfBounds));
    let mut state = State::new();
    assert_eq!(preencode_fixed32(&mut state, &[0; 31]), Err(EncodingError::InvalidLength));
    assert_eq!(preencode_fixed64(&mut state, &[0; 65]), Err(EncodingError::InvalidLength));
    assert_eq!(EncodingError::InvalidLength.message(), "invalid length");
}

#[test]
fn only_canonical_dotted_addresses_are_taken() {
    for bad in [
        "", "1.2.3", "1.2.3.4.5", "256.1.1.1", "01.2.3.4", "1..2.3", "1.2.3.4 ", "a.b.c.d",
        "1.2.3.1000", "::1", "1.2.3.4é",
    ] {
        let mut state = State::new();
        preencode_ipv4(&mut state, bad);
        state.allocate();
        assert_eq!(encode_ipv4(&mut state, bad), Err(EncodingError::InvalidAddress));
        assert_eq!(state.start, 0);
    }
}

#[test]
fn an_overlong_varint_is_read_and_booleans_are_true_only_for_one() {
    let mut state = State::from_buffer(&[0xfd, 5, 0, 2]);
    assert_eq!(decode_uint(&mut state).unwrap(), 5);
    assert!(!decode_bool(&mut state).unwrap());
}

#[test]
fn ipv6_roundtrip() {
    let buf = encode_value_with_pre(
        |s| preencode_ipv6(s, "::1"),
        |s| encode_ipv6(s, "::1").unwrap(),
    );
    assert_eq!(buf.len(), 16);
    let mut state = State::from_buffer(&buf);
    let decoded = decode_ipv6(&mut state).unwrap();
    assert_eq!(decoded, "::1");
}

#[test]
fn ip_dual_v4() {
    let addr = "192.168.1.1";
    let buf = encode_value_with_pre(
        |s| preencode_ip(s, addr),
        |s| encode_ip(s, addr).unwrap(),
    );
    assert_eq!(buf[0], 4);
    assert_eq!(buf.len(), 5);
    let mut state = State::from_buffer(&buf);
    assert_eq!(decode_ip(&mut state).unwrap(), addr);
}

#[test]
fn ip_dual_v6() {
    let addr = "::1";
    let buf = encode_value_with_pre(
        |s| preencode_ip(s, addr),
        |s| encode_ip(s, addr).unwrap(),
    );
    assert_eq!(buf[0], 6);
    assert_eq!(buf.len(), 17);
    let mut state = State::from_buffer(&buf);
    assert_eq!(decode_ip(&mut state).unwrap(), "::1");
}

#[test]
fn ipv6_text_forms() {
    let cases: [(&str, [u16; 8], &str); 14] = [
        ("::", [0, 0, 0, 0, 0, 0, 0, 0], "::"),
        ("::1", [0, 0, 0, 0, 0, 0, 0, 1], "::1"),
        ("1::", [1, 0, 0, 0, 0, 0, 0, 0], "1::"),
        ("2001:db8::8a2e:370:7334", [0x2001, 0xdb8, 0, 0, 0, 0x8a2e, 0x370, 0x7334], "2001:db8::8a2e:370:7334"),
        ("2001:0DB8:0:0:8:800:200C:417A", [0x2001, 0xdb8, 0, 0, 8, 0x800, 0x200c, 0x417a], "2001:db8::8:800:200c:417a"),
        ("1:0:0:2:0:0:0:3", [1, 0, 0, 2, 0, 0, 0, 3], "1:0:0:2::3"),
        ("1:0:2:0:3:0:4:0", [1, 0, 2, 0, 3, 0, 4, 0], "1:0:2:0:3:0:4:0"),
        ("1:2:3:4:5:6:7:8", [1, 2, 3, 4, 5, 6, 7, 8], "1:2:3:4:5:6:7:8"),
        ("1:2:3:4:5:6:7::", [1, 2, 3, 4, 5, 6, 7, 0], "1:2:3:4:5:6:7:0"),
        ("::2:3:4:5:6:7:8", [0, 2, 3, 4, 5, 6, 7, 8], "0:2:3:4:5:6:7:8"),
        ("::ffff:192.168.0.1", [0, 0, 0, 0, 0, 0xffff, 0xc0a8, 1], "::ffff:192.168.0.1"),
        ("1:2:3:4:5:6:1.2.3.4", [1, 2, 3, 4, 5, 6, 0x102, 0x304], "1:2:3:4:5:6:102:304"),
        ("64:ff9b::192.0.2.33", [0x64, 0xff9b, 0, 0, 0, 0, 0xc000, 0x221], "64:ff9b::c000:221"),
        ("fe80::1:0:0:1", [0xfe80, 0, 0, 0, 1, 0, 0, 1], "fe80::1:0:0:1"),
    ];
    for (text, groups, canonical) in cases {
        let buf = encode_value_with_pre(
            |s| preencode_ipv6(s, text),
            |s| encode_ipv6(s, text).unwrap(),
        );
        let expected: Vec<u8> = groups.iter().flat_map(|g| g.to_be_bytes()).collect();
        assert_eq!(buf, expected, "{text}");
        let mut state = State::from_buffer(&buf);
        assert_eq!(decode_ipv6(&mut state).unwrap(), canonical);
    }
}

#[test]
fn ipv6_rejects_other_texts() {
    for bad in [
        "", ":", ":::", "1:2:3:4:5:6:7", "1:2:3:4:5:6:7:8:9", "1::2::3", "12345::", "g::", "::1 ",
        "1:2:3:4:5:6:7:1.2.3.4", "1.2.3.4::", "::256.1.1.1", "1:2:3:4:5:6:7:8::", "127.0.0.1",
    ] {
        let mut state = State::new();
        preencode_ipv6(&mut state, bad);
        state.allocate();
        assert_eq!(encode_ipv6(&mut state, bad), Err(EncodingError::InvalidAddress), "{bad}");
    }
}

#[test]
fn ip_errors() {
    let mut state = State::from_buffer(&[5, 1, 2, 3, 4]);
    assert_eq!(decode_ip(&mut state), Err(EncodingError::UnknownFamily));
    let mut state = State::from_buffer(&[4, 1, 2, 3]);
    assert_eq!(decode_ip(&mut state), Err(EncodingError::OutOfBounds));
    let mut state = State::from_buffer(&[6, 1, 2, 3]);
    assert_eq!(decode_ip(&mut state), Err(EncodingError::OutOfBounds));
    let mut state = State::from_buffer(&[]);
    assert_eq!(decode_ip(&mut state), Err(EncodingError::OutOfBounds));
    let mut state = State::new();
    preencode_ip(&mut state, "localhost");
    state.allocate();
    assert_eq!(encode_ip(&mut state, "localhost"), Err(EncodingError::InvalidAddress));
}
