use bytes::BytesMut;
use faster_stun::attribute::ChannelNumber;
use faster_stun::attribute::ErrKind as StunErrKind;
use faster_stun::attribute::Error;
use faster_stun::attribute::ErrorCode;
use faster_stun::attribute::Lifetime;
use faster_stun::attribute::Realm;
use faster_stun::attribute::Software;
use faster_stun::attribute::UserName;
use faster_stun::attribute::XorMappedAddress;
use faster_stun::attribute::XorPeerAddress;
use faster_stun::attribute::XorRelayedAddress;
use faster_stun::Kind;
use faster_stun::MessageReader;
use faster_stun::MessageWriter;
use faster_stun::Method;
use turn_rs::address::Address;
use turn_rs::address::IpAddress;
use turn_rs::processor::Processor;

#[test]
fn stun_attributes_come_back_as_they_were_written() {
    let token = [7u8; 12];
    let mapped = "10.0.0.1:5000".parse().unwrap();
    let relayed = "203.0.113.5:49152".parse().unwrap();
    let peer = "[2001:db8::1]:6000".parse().unwrap();
    let mut bytes = BytesMut::with_capacity(1280);
    let mut writer = MessageWriter::new(Method::Allocate(Kind::Response), &token, &mut bytes);
    writer.append::<UserName>("alice");
    writer.append::<Realm>("example.org");
    writer.append::<Software>("relay");
    writer.append::<XorMappedAddress>(mapped);
    writer.append::<XorRelayedAddress>(relayed);
    writer.append::<XorPeerAddress>(peer);
    writer.append::<Lifetime>(600);
    writer.append::<ChannelNumber>(0x4001);
    writer.append::<ErrorCode>(Error::from(StunErrKind::Forbidden));
    writer.flush(None).unwrap();
    let mut attributes = Vec::new();
    let reader = MessageReader::decode(&bytes[..], &mut attributes).unwrap();
    assert_eq!(reader.method, Method::Allocate(Kind::Response));
    assert_eq!(reader.token, &token[..]);
    assert_eq!(reader.get::<UserName>(), Some("alice"));
    assert_eq!(reader.get::<Realm>(), Some("example.org"));
    assert_eq!(reader.get::<Software>(), Some("relay"));
    assert_eq!(reader.get::<XorMappedAddress>(), Some(mapped));
    assert_eq!(reader.get::<XorRelayedAddress>(), Some(relayed));
    assert_eq!(reader.get::<XorPeerAddress>(), Some(peer));
    assert_eq!(reader.get::<Lifetime>(), Some(600));
    assert_eq!(reader.get::<ChannelNumber>(), Some(0x4001));
    assert_eq!(reader.get::<ErrorCode>().map(|e| e.code), Some(0x0403));
}

#[test]
fn a_message_signed_with_the_key_of_the_library_passes_integrity() {
    let external = Address::new(IpAddress::v4(203, 0, 113, 5), 3478);
    let client = Address::new(IpAddress::v4(10, 0, 0, 1), 5000);
    let processor = Processor::with_defaults(external, "example.org".to_string(), 0, None);
    let key = processor.get_key(&client, "alice", "secret");
    let token = [3u8; 12];
    let mut bytes = BytesMut::with_capacity(1280);
    let mut writer = MessageWriter::new(Method::Refresh(Kind::Request), &token, &mut bytes);
    writer.append::<UserName>("alice");
    writer.append::<Realm>("example.org");
    writer.flush(Some(&key)).unwrap();
    let mut attributes = Vec::new();
    let reader = MessageReader::decode(&bytes[..], &mut attributes).unwrap();
    assert!(reader.integrity(&key).is_ok());
    let other = processor.get_key(&client, "alice", "wrong");
    assert!(reader.integrity(&other).is_err());
}
