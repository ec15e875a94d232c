use telepipe::msg::common::{Redirect4, Redirect6, Welcome, LOGIN_WELCOME_COPYRIGHT};
use telepipe::msg::login::HlCheck;
use telepipe::msg::{round_up, round_up_remainder, Msg};
use telepipe::serial::{Serial, SerialError};

fn wire<T: Serial>(v: &T) -> Vec<u8> {
    let mut buf: Vec<u8> = Vec::new();
    v.serialize(&mut buf);
    buf
}

#[test]
fn integers_read_back() {
    assert_eq!(u8::deserialize(&[7, 1]).unwrap(), (7, 1));
    assert_eq!(u16::deserialize(&wire(&0xBEEFu16)).unwrap(), (0xBEEF, 2));
    assert_eq!(u32::deserialize(&wire(&0xDEADBEEFu32)).unwrap(), (0xDEADBEEF, 4));
    assert_eq!(u64::deserialize(&wire(&0x0102030405060708u64)).unwrap(), (0x0102030405060708, 8));
    assert_eq!(i16::deserialize(&wire(&-300i16)).unwrap(), (-300, 2));
    assert_eq!(i32::deserialize(&wire(&-70000i32)).unwrap(), (-70000, 4));
    assert_eq!(i64::deserialize(&wire(&i64::MIN)).unwrap(), (i64::MIN, 8));
}

#[test]
fn integers_little_endian_read() {
    assert_eq!(u16::deserialize(&[0x34, 0x12, 0xff]).unwrap(), (0x1234, 2));
    assert_eq!(u32::deserialize(&[0x78, 0x56, 0x34, 0x12]).unwrap(), (0x12345678, 4));
    assert_eq!(wire(&0x0102030405060708u64), vec![8, 7, 6, 5, 4, 3, 2, 1]);
}

#[test]
fn integers_short_input() {
    assert_eq!(u8::deserialize(&[]).unwrap_err(), SerialError::UnexpectedEof);
    assert_eq!(u16::deserialize(&[1]).unwrap_err(), SerialError::UnexpectedEof);
    assert_eq!(u32::deserialize(&[1, 2, 3]).unwrap_err(), SerialError::UnexpectedEof);
    assert_eq!(i64::deserialize(&[1, 2, 3, 4, 5, 6, 7]).unwrap_err(), SerialError::UnexpectedEof);
}

#[test]
fn welcome_wire_layout() {
    let w = Welcome { copyright: "AB".to_string(), server_seed: 0x01020304, client_seed: 5 };
    let b = wire(&w);
    assert_eq!(b.len(), 0x48);
    assert_eq!(&b[..3], &[b'A', b'B', 0]);
    assert!(b[2..0x40].iter().all(|&x| x == 0));
    assert_eq!(&b[0x40..0x48], &[4, 3, 2, 1, 5, 0, 0, 0]);
}

#[test]
fn welcome_read_back() {
    let w = Welcome {
        copyright: LOGIN_WELCOME_COPYRIGHT.to_string(),
        server_seed: 123456,
        client_seed: 654321,
    };
    let (r, n) = Welcome::deserialize(&wire(&w)).unwrap();
    assert_eq!(n, 0x48);
    assert_eq!(r.copyright, LOGIN_WELCOME_COPYRIGHT);
    assert_eq!(r.server_seed, 123456);
    assert_eq!(r.client_seed, 654321);
}

#[test]
fn welcome_text_outside_ascii() {
    // A character outside ASCII is written as '?'.
    let w = Welcome { copyright: "a\u{e9}b".to_string(), server_seed: 0, client_seed: 0 };
    let b = wire(&w);
    assert_eq!(&b[..4], &[b'a', b'?', b'b', 0]);
    // A byte outside ASCII reads as U+FFFD.
    let mut raw = vec![0u8; 0x48];
    raw[0] = b'x';
    raw[1] = 0xC3;
    let (r, _) = Welcome::deserialize(&raw).unwrap();
    assert_eq!(r.copyright, "x\u{fffd}");
}

#[test]
fn welcome_long_text_is_cut() {
    let long: String = std::iter::repeat('z').take(70).collect();
    let w = Welcome { copyright: long, server_seed: 9, client_seed: 8 };
    let b = wire(&w);
    assert_eq!(b.len(), 0x48);
    let (r, _) = Welcome::deserialize(&b).unwrap();
    assert_eq!(r.copyright.len(), 0x40);
    assert_eq!(r.server_seed, 9);
}

#[test]
fn welcome_short_input() {
    assert_eq!(Welcome::deserialize(&[0u8; 0x47]).unwrap_err(), SerialError::UnexpectedEof);
    assert_eq!(Welcome::deserialize(&[0u8; 0x20]).unwrap_err(), SerialError::UnexpectedEof);
}

#[test]
fn redirects_read_back() {
    let r4 = Redirect4 { ip: [10, 0, 0, 7], port: 9100 };
    let (x, n) = Redirect4::deserialize(&wire(&r4)).unwrap();
    assert_eq!((x.ip, x.port, n), ([10, 0, 0, 7], 9100, 8));
    let r6 = Redirect6 { ip: [1; 16], port: 9200, flowinfo: 0, scope_id: 0xe };
    let (y, m) = Redirect6::deserialize(&wire(&r6)).unwrap();
    assert_eq!((y.ip, y.port, y.flowinfo, y.scope_id, m), ([1; 16], 9200, 0, 0xe, 20));
    assert_eq!(Redirect4::deserialize(&[0u8; 7]).unwrap_err(), SerialError::UnexpectedEof);
    assert_eq!(Redirect6::deserialize(&[0u8; 19]).unwrap_err(), SerialError::UnexpectedEof);
}

#[test]
fn hlcheck_layout_and_read_back() {
    let h = HlCheck {
        serial: [1; 8],
        access_key: [2; 12],
        version: 3,
        serial2: [4; 8],
        access_key2: [5; 12],
        password: [6; 16],
    };
    let b = wire(&h);
    assert_eq!(b.len(), 220);
    assert_eq!(&b[32..40], &[1; 8]);
    assert_eq!(b[72], 3);
    assert_eq!(&b[172..188], &[6; 16]);
    let (r, n) = HlCheck::deserialize(&b).unwrap();
    assert_eq!(n, 220);
    assert_eq!(r.serial, [1; 8]);
    assert_eq!(r.access_key, [2; 12]);
    assert_eq!(r.version, 3);
    assert_eq!(r.serial2, [4; 8]);
    assert_eq!(r.access_key2, [5; 12]);
    assert_eq!(r.password, [6; 16]);
    assert_eq!(HlCheck::deserialize(&b[..219]).unwrap_err(), SerialError::UnexpectedEof);
}

#[test]
fn msg_read_back_each_kind() {
    let msgs = vec![
        Msg::Unknown(0x60, 3, vec![1, 2, 3, 4, 5, 6, 7, 8]),
        Msg::LoginWelcome(1, Welcome { copyright: "L".to_string(), server_seed: 1, client_seed: 2 }),
        Msg::ShipWelcome(2, Welcome { copyright: "S".to_string(), server_seed: 3, client_seed: 4 }),
        Msg::Redirect4(Redirect4 { ip: [1, 2, 3, 4], port: 5 }),
        Msg::Redirect6(Redirect6 { ip: [9; 16], port: 6, flowinfo: 0, scope_id: 0xe }),
        Msg::HlCheck(HlCheck::default()),
    ];
    for m in msgs {
        let mut b = wire(&m);
        let len = b.len();
        b.extend_from_slice(&[0xAA, 0xBB]);
        let (r, n) = Msg::deserialize(&b).unwrap();
        assert_eq!(n, len);
        assert_eq!(format!("{:?}", r), format!("{:?}", m));
    }
}

#[test]
fn msg_header_counts_header_and_padding() {
    let b = wire(&Msg::Unknown(0x42, 9, vec![7; 5]));
    assert_eq!(&b[..4], &[0x42, 9, 12, 0]);
    assert_eq!(&b[4..], &[7, 7, 7, 7, 7, 0, 0, 0]);
    let b = wire(&Msg::Unknown(0x42, 9, vec![]));
    assert_eq!(b, vec![0x42, 9, 4, 0]);
}

#[test]
fn msg_flags_of_fixed_kinds_are_zero() {
    let b = wire(&Msg::HlCheck(HlCheck::default()));
    assert_eq!(&b[..4], &[0xDB, 0, 224, 0]);
    let b = wire(&Msg::ShipWelcome(5, Welcome::default()));
    assert_eq!(&b[..4], &[0x02, 5, 0x4C, 0]);
}

#[test]
fn msg_read_errors() {
    assert_eq!(Msg::deserialize(&[1, 2, 8]).unwrap_err(), SerialError::UnexpectedEof);
    assert_eq!(Msg::deserialize(&[1, 2, 3, 0]).unwrap_err(), SerialError::InvalidSize);
    assert_eq!(Msg::deserialize(&[1, 2, 8, 0, 1, 2]).unwrap_err(), SerialError::UnexpectedEof);
    // A welcome whose body is too short for a welcome.
    assert_eq!(Msg::deserialize(&[0x17, 0, 8, 0, 1, 2, 3, 4]).unwrap_err(), SerialError::UnexpectedEof);
}

#[test]
fn msg_unknown_keeps_unpadded_body() {
    let (m, n) = Msg::deserialize(&[0x60, 1, 6, 0, 9, 8, 7]).unwrap();
    assert_eq!(n, 6);
    match m {
        Msg::Unknown(c, f, b) => assert_eq!((c, f, b), (0x60, 1, vec![9, 8])),
        other => panic!("unexpected {:?}", other),
    }
}

#[test]
fn msg_redirect_kind_by_length() {
    let (m, _) = Msg::deserialize(&[0x19, 0, 12, 0, 1, 2, 3, 4, 0x50, 0, 0, 0]).unwrap();
    assert!(matches!(m, Msg::Redirect4(Redirect4 { ip: [1, 2, 3, 4], port: 80 })));
    let mut b = vec![0x19, 0, 24, 0];
    b.extend_from_slice(&[0u8; 16]);
    b.extend_from_slice(&[0x51, 0, 0, 0]);
    let (m, _) = Msg::deserialize(&b).unwrap();
    assert!(matches!(m, Msg::Redirect6(Redirect6 { port: 81, flowinfo: 0, scope_id: 0xe, .. })));
}

#[test]
fn round_up_values() {
    assert_eq!(round_up(8, 4), 8);
    assert_eq!(round_up(9, 4), 13);
    assert_eq!(round_up(0, 4), 0);
    assert_eq!(round_up_remainder(8, 4), 0);
    assert_eq!(round_up_remainder(9, 4), 3);
    assert_eq!(round_up_remainder(11, 4), 1);
}
