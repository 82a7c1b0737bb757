use turn_rs::address::Address;
use turn_rs::address::IpAddress;
use turn_rs::numbers::push_be128;
use turn_rs::numbers::push_be16;
use turn_rs::numbers::push_be32;
use turn_rs::numbers::read_be128;
use turn_rs::numbers::read_be16;
use turn_rs::numbers::read_be32;
use turn_rs::proxy::retry::next_try;
use turn_rs::proxy::retry::Traffic;
use turn_rs::proxy::wire::decode_frame;
use turn_rs::proxy::wire::encode_frame;
use turn_rs::proxy::wire::Frame;
use turn_rs::proxy::wire::WireError;
use turn_rs::proxy::Payload;
use turn_rs::proxy::Proxy;
use turn_rs::proxy::ProxyError;
use turn_rs::proxy::ProxyStateNotifyNode;

fn v4(last: u8, port: u16) -> Address {
    Address::new(IpAddress::v4(198, 51, 100, last), port)
}

fn v6(port: u16) -> Address {
    Address::new(IpAddress::V6(0x2001_0db8_0000_0000_0000_0000_0000_0001), port)
}

fn roundtrip(frame: &Frame) -> (Frame, usize) {
    let bytes = encode_frame(frame).unwrap();
    let (back, used) = decode_frame(&bytes).unwrap();
    assert_eq!(used, bytes.len());
    (back, used)
}

#[test]
fn numbers_stand_with_the_high_byte_first() {
    let mut out = vec![9u8];
    push_be16(&mut out, 0x1234);
    push_be32(&mut out, 0xDEAD_BEEF);
    push_be128(&mut out, 0x0102_0304_0506_0708_090A_0B0C_0D0E_0F10);
    assert_eq!(
        out,
        vec![
            9, 0x12, 0x34, 0xDE, 0xAD, 0xBE, 0xEF, 1, 2, 3, 4, 5, 6, 7, 8, 9, 10, 11, 12, 13, 14,
            15, 16
        ]
    );
    assert_eq!(read_be16(&out, 1), 0x1234);
    assert_eq!(read_be32(&out, 3), 0xDEAD_BEEF);
    assert_eq!(read_be128(&out, 7), 0x0102_0304_0506_0708_090A_0B0C_0D0E_0F10);
    let mut edge = vec![];
    push_be128(&mut edge, u128::MAX);
    push_be32(&mut edge, u32::MAX);
    push_be16(&mut edge, u16::MAX);
    assert_eq!(edge, vec![0xFF; 22]);
    assert_eq!(read_be128(&edge, 0), u128::MAX);
    assert_eq!(read_be32(&edge, 16), u32::MAX);
    assert_eq!(read_be16(&edge, 20), u16::MAX);
}

#[test]
fn wire_create_permission_frame() {
    let frame = Frame::Payload(Payload::CreatePermission {
        id: 7,
        from: Address::new(IpAddress::v4(10, 0, 0, 1), 5000),
        peer: v4(9, 7000),
    });
    let bytes = encode_frame(&frame).unwrap();
    assert_eq!(
        bytes,
        vec![
            0, 0, 0, 16, 0x02, 7, 4, 10, 0, 0, 1, 0x13, 0x88, 4, 198, 51, 100, 9, 0x1B, 0x58
        ]
    );
    match roundtrip(&frame).0 {
        Frame::Payload(Payload::CreatePermission { id, from, peer }) => {
            assert_eq!(id, 7);
            assert_eq!(from, Address::new(IpAddress::v4(10, 0, 0, 1), 5000));
            assert_eq!(peer, v4(9, 7000));
        }
        other => panic!("{:?}", other),
    }
}

#[test]
fn wire_state_notify_frame() {
    let nodes = vec![
        ProxyStateNotifyNode { index: 1, external: v4(8, 3478), online: true },
        ProxyStateNotifyNode { index: 2, external: v6(3479), online: false },
    ];
    let frame = Frame::Payload(Payload::ProxyStateNotify(nodes.clone()));
    let bytes = encode_frame(&frame).unwrap();
    assert_eq!(bytes.len(), 4 + 1 + 9 + 21);
    assert_eq!(&bytes[..5], &[0, 0, 0, 31, 0x01]);
    assert_eq!(&bytes[5..14], &[1, 4, 198, 51, 100, 8, 0x0D, 0x96, 1]);
    assert_eq!(bytes[14], 2);
    assert_eq!(bytes[15], 6);
    assert_eq!(&bytes[16..20], &[0x20, 0x01, 0x0d, 0xb8]);
    assert_eq!(&bytes[31..35], &[1, 0x0D, 0x97, 0]);
    match roundtrip(&frame).0 {
        Frame::Payload(Payload::ProxyStateNotify(back)) => assert_eq!(back, nodes),
        other => panic!("{:?}", other),
    }
    let empty = Frame::Payload(Payload::ProxyStateNotify(vec![]));
    assert_eq!(encode_frame(&empty).unwrap(), vec![0, 0, 0, 1, 0x01]);
    match roundtrip(&empty).0 {
        Frame::Payload(Payload::ProxyStateNotify(back)) => assert!(back.is_empty()),
        other => panic!("{:?}", other),
    }
}

#[test]
fn wire_relay_frame() {
    let frame = Frame::Relay(b"hi".to_vec());
    assert_eq!(encode_frame(&frame).unwrap(), vec![0, 0, 0, 3, 0x10, b'h', b'i']);
    match roundtrip(&frame).0 {
        Frame::Relay(data) => assert_eq!(data, b"hi".to_vec()),
        other => panic!("{:?}", other),
    }
    match roundtrip(&Frame::Relay(vec![])).0 {
        Frame::Relay(data) => assert!(data.is_empty()),
        other => panic!("{:?}", other),
    }
}

#[test]
fn wire_decode_takes_the_first_frame_only() {
    let mut bytes = encode_frame(&Frame::Relay(b"one".to_vec())).unwrap();
    let first = bytes.len();
    bytes.extend(encode_frame(&Frame::Relay(b"second".to_vec())).unwrap());
    let (frame, used) = decode_frame(&bytes).unwrap();
    assert_eq!(used, first);
    match frame {
        Frame::Relay(data) => assert_eq!(data, b"one".to_vec()),
        other => panic!("{:?}", other),
    }
    let (frame, used) = decode_frame(&bytes[first..]).unwrap();
    assert_eq!(used, bytes.len() - first);
    match frame {
        Frame::Relay(data) => assert_eq!(data, b"second".to_vec()),
        other => panic!("{:?}", other),
    }
}

fn error_of(bytes: &[u8]) -> WireError {
    match decode_frame(bytes) {
        Ok(found) => panic!("{:?}", found),
        Err(e) => e,
    }
}

#[test]
fn wire_decode_tells_incomplete_from_malformed() {
    assert_eq!(error_of(&[]), WireError::Incomplete);
    assert_eq!(error_of(&[0, 0, 0]), WireError::Incomplete);
    assert_eq!(error_of(&[0, 0, 0, 0]), WireError::Malformed);
    assert_eq!(error_of(&[0, 0, 0, 0, 1]), WireError::Malformed);
    assert_eq!(error_of(&[0, 0, 0, 1]), WireError::Incomplete);
    assert_eq!(error_of(&[0, 0, 0, 3, 0x10, 1]), WireError::Incomplete);
    assert_eq!(error_of(&[0xFF, 0xFF, 0xFF, 0xFF, 0x10, 1]), WireError::Incomplete);
    assert_eq!(error_of(&[0, 0, 0, 1, 0x03]), WireError::Malformed);
    assert_eq!(error_of(&[0, 0, 0, 1, 0x02]), WireError::Malformed);
    assert_eq!(error_of(&[0, 0, 0, 2, 0x01, 9]), WireError::Malformed);
    let good =
        vec![0, 0, 0, 16, 0x02, 7, 4, 10, 0, 0, 1, 0x13, 0x88, 4, 198, 51, 100, 9, 0x1B, 0x58];
    assert!(decode_frame(&good).is_ok());
    let mut long = good.clone();
    long[3] = 17;
    long.push(0);
    assert_eq!(error_of(&long), WireError::Malformed);
    let mut family = good.clone();
    family[6] = 5;
    assert_eq!(error_of(&family), WireError::Malformed);
    let mut short = good.clone();
    short[3] = 15;
    assert_eq!(error_of(&short[..19]), WireError::Malformed);
    let online = vec![0, 0, 0, 10, 0x01, 1, 4, 198, 51, 100, 8, 0x0D, 0x96, 2];
    assert_eq!(error_of(&online), WireError::Malformed);
}

#[test]
fn proxy_send_and_relay_build_frames() {
    let proxy = Proxy::new();
    let from = Address::new(IpAddress::v4(10, 0, 0, 1), 5000);
    let out = proxy.send(Payload::CreatePermission { id: 7, from, peer: v4(9, 7000) }, 7).unwrap();
    assert_eq!(out.to, 7);
    assert!(!out.ordered);
    assert_eq!(&out.bytes[..6], &[0, 0, 0, 16, 0x02, 7]);
    let out = proxy.relay(Payload::ProxyStateNotify(vec![]), 3).unwrap();
    assert_eq!(out.to, 3);
    assert!(out.ordered);
    assert_eq!(out.bytes, vec![0, 0, 0, 1, 0x01]);
    assert_ne!(ProxyError::TooLong, ProxyError::NotFound);
}

#[test]
fn retries_double_up_to_five_seconds() {
    let waits: Vec<u64> = (0..10).map(|n| next_try(Traffic::Control, n).unwrap()).collect();
    assert_eq!(waits, vec![100, 100, 200, 400, 800, 1600, 3200, 5000, 5000, 5000]);
    assert_eq!(next_try(Traffic::Control, u32::MAX), Some(5000));
    assert_eq!(next_try(Traffic::Relay, 0), None);
    assert_eq!(next_try(Traffic::Relay, 1), None);
    assert_eq!(next_try(Traffic::Relay, 5), None);
}

#[test]
fn proxy_relay_data_builds_a_relay_frame() {
    let out = Proxy::new().relay_data(b"hi".to_vec(), 9).unwrap();
    assert_eq!(out.to, 9);
    assert!(out.ordered);
    assert_eq!(out.bytes, vec![0, 0, 0, 3, 0x10, b'h', b'i']);
}
