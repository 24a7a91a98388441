use innernet_rp::codec::{decode_canonical, parse_decimal, parse_digits, same_slice};
use innernet_rp::crypto::{random, Random, SystemRandom};
use innernet_rp::enrollment::{Enrollment, SecretKey};
use innernet_rp::protocol::{
    parse_message, to_be_bytes, Binary, Kind, Message, Number, NUMBER_MAX, REQUEST_LIMIT,
};
use innernet_rp::Error;

fn n(v: u64) -> Number {
    Number::new(v).unwrap()
}

fn proposal() -> Message {
    Message {
        version: 1,
        network_id: Binary([1; 16]),
        initiator_id: n(2),
        responder_id: n(3),
        initiator_bundle_id: Binary([2; 16]),
        responder_bundle_id: Binary([3; 16]),
        sequence: n(1),
        exchange_id: Binary([4; 16]),
        transcript_hash: Binary([5; 32]),
        sender_id: n(2),
        message_type: 1,
        tag: Binary([6; 32]),
        signature: Binary([7; 132]),
        ciphertext: Some(Binary([8; 1624])),
        operator_psk_id: Some(Binary([0; 16])),
    }
}

#[test]
fn canonical_json_and_exact_body_boundaries() {
    let message = proposal();
    assert!(parse_message(REQUEST_LIMIT, Some(message), false).is_ok());
    assert_eq!(parse_message(REQUEST_LIMIT + 1, Some(message), false), Err(Error::Invalid));
    // A body that does not decode strictly is refused.
    assert_eq!(parse_message(10, None, false), Err(Error::Invalid));
    // An explicit null where a field is optional is refused.
    let mut ready = message;
    ready.message_type = 2;
    ready.sender_id = n(3);
    ready.ciphertext = None;
    ready.operator_psk_id = None;
    assert!(parse_message(10, Some(ready), false).is_ok());
    assert_eq!(parse_message(10, Some(ready), true), Err(Error::Invalid));
    for text in [&b"0"[..], b"01", b"+1", b"-1", b"9223372036854775808", b" 1", b""] {
        assert_eq!(Number::parse(text), Err(Error::Invalid));
    }
    for value in [1u64, (1 << 53) - 1, 1 << 53, (1 << 53) + 1, i64::MAX as u64] {
        let text = value.to_string();
        assert_eq!(Number::parse(text.as_bytes()), Ok(n(value)));
    }
    assert!(Number::new(i64::MAX as u64).unwrap().next().is_err());
    for text in [&b"AQ"[..], b"AR==", b"AQ==\n", b"_w=="] {
        assert_eq!(Binary::<1>::decode_text(text), Err(Error::Invalid));
    }
    assert_eq!(Binary::<1>::decode_text(b"AQ=="), Ok(Binary([1])));
}

#[test]
fn raw_and_base64_size_contracts() {
    assert_eq!(Binary([0u8; 1568]).encode_text().len(), 2092);
    assert_eq!(Binary([0u8; 1624]).encode_text().len(), 2168);
    let total = Binary([0u8; 1568]).encode_text().len()
        + Binary([0u8; 56]).encode_text().len()
        + Binary([0u8; 67]).encode_text().len();
    assert_eq!(total, 2260);
}

#[test]
fn numbers_are_positive_signed_identifiers() {
    assert_eq!(Number::new(0), Err(Error::Invalid));
    assert_eq!(Number::new(NUMBER_MAX + 1), Err(Error::Invalid));
    assert_eq!(n(NUMBER_MAX).get(), NUMBER_MAX);
    assert_eq!(n(41).next(), Ok(n(42)));
    assert!(n(1) < n(2));
    assert_eq!(to_be_bytes(0x0102030405060708), [1, 2, 3, 4, 5, 6, 7, 8]);
}

#[test]
fn binary_values_round_trip_through_their_text() {
    let value = Binary([0xfbu8, 0xff, 0x00, 0x10]);
    let text = value.encode_text();
    assert_eq!(text, b"+/8AEA==".to_vec());
    assert_eq!(Binary::<4>::decode_text(&text), Ok(value));
    // Right bytes, wrong length.
    assert_eq!(Binary::<3>::decode_text(&text), Err(Error::Invalid));
    assert_eq!(decode_canonical(b"+/8AEA==", 4), Some(vec![0xfb, 0xff, 0x00, 0x10]));
    // Non-zero padding bits are not canonical.
    assert_eq!(decode_canonical(b"+/8AEB==", 4), None);
}

#[test]
fn message_kinds_have_fixed_codes() {
    for (code, kind) in [
        (1u8, Kind::Propose),
        (2, Kind::Ready),
        (3, Kind::Commit),
        (4, Kind::Installed),
        (5, Kind::Confirmed),
        (6, Kind::Abort),
    ] {
        assert_eq!(Kind::try_from(code), Ok(kind));
        assert_eq!(kind.code(), code);
    }
    assert_eq!(Kind::try_from(0), Err(Error::Invalid));
    assert_eq!(Kind::try_from(7), Err(Error::Invalid));
}

#[test]
fn message_shapes_follow_the_roles() {
    let message = proposal();
    assert_eq!(message.validate_shape(), Ok(Kind::Propose));
    // Only the initiator proposes, and a proposal carries its ciphertext.
    assert_eq!(Message { sender_id: n(3), ..message }.validate_shape(), Err(Error::Invalid));
    assert_eq!(Message { ciphertext: None, ..message }.validate_shape(), Err(Error::Invalid));
    // The initiator has the lower identifier.
    assert_eq!(
        Message { initiator_id: n(3), responder_id: n(2), sender_id: n(3), ..message }
            .validate_shape(),
        Err(Error::Invalid)
    );
    assert_eq!(Message { version: 2, ..message }.validate_shape(), Err(Error::Invalid));
    // A sender outside the pair is refused.
    assert_eq!(Message { sender_id: n(4), ..message }.validate_shape(), Err(Error::Invalid));
    let installed = Message {
        message_type: 4,
        ciphertext: None,
        operator_psk_id: None,
        ..message
    };
    assert_eq!(installed.validate_shape(), Ok(Kind::Installed));
    assert_eq!(Message { sender_id: n(3), ..installed }.validate_shape(), Ok(Kind::Installed));
    assert_eq!(
        Message { message_type: 2, ..installed }.validate_shape(),
        Err(Error::Invalid)
    );
}

#[test]
fn decimals_are_parsed_within_their_limit() {
    assert_eq!(parse_digits(b"007", 10), Some(7));
    assert_eq!(parse_digits(b"11", 10), None);
    assert_eq!(parse_digits(b"", 10), None);
    assert_eq!(parse_digits(b"1a", 10), None);
    assert_eq!(parse_digits(b"18446744073709551615", u64::MAX), Some(u64::MAX));
    assert_eq!(parse_digits(b"18446744073709551616", u64::MAX), None);
    assert_eq!(parse_decimal(b"007", 10), None);
    assert_eq!(parse_decimal(b"0", 10), None);
    assert_eq!(parse_decimal(b"10", 10), Some(10));
    assert!(same_slice(b"abc", b"abc"));
    assert!(!same_slice(b"abc", b"abd"));
    assert!(!same_slice(b"abc", b"ab"));
}

#[test]
fn management_secrets_are_never_zero() {
    assert_eq!(SecretKey::from_bytes([0; 32]).err(), Some("a management PSK must not be zero"));
    let key = SecretKey::from_bytes([7; 32]).unwrap();
    assert_eq!(key.bytes(), &[7; 32]);
    let text = key.encode_text();
    assert_eq!(text, b"BwcHBwcHBwcHBwcHBwcHBwcHBwcHBwcHBwcHBwcHBwc=".to_vec());
    assert_eq!(SecretKey::decode_text(&text).unwrap().bytes(), &[7; 32]);
    assert!(SecretKey::decode_text(b"AAAAAAAAAAAAAAAAAAAAAAAAAAAAAAAAAAAAAAAAAAA=").is_err());
    assert!(SecretKey::decode_text(b"not base64").is_err());
}

#[test]
fn enrollments_name_two_distinct_positive_peers() {
    let enrollment = Enrollment {
        network_id: [1; 16],
        provision_id: [2; 16],
        peer_id: 3,
        server_id: 1,
        psk: SecretKey::from_bytes([7; 32]).unwrap(),
    };
    assert_eq!(enrollment.validate(), Ok(()));
    let invalid = Enrollment { server_id: 3, ..enrollment };
    assert_eq!(invalid.validate(), Err("invalid management enrollment identities"));
    assert!(Enrollment { peer_id: 0, ..enrollment }.validate().is_err());
    assert!(Enrollment { server_id: -1, ..enrollment }.validate().is_err());
}

#[test]
fn the_system_source_fills_every_byte_it_is_given() {
    let mut first = [0u8; 64];
    let mut second = [0u8; 64];
    SystemRandom.fill(&mut first).unwrap();
    SystemRandom.fill(&mut second).unwrap();
    assert_ne!(first, [0u8; 64]);
    assert_ne!(first, second);
    let secret = random::<32, SystemRandom>(&mut SystemRandom).unwrap();
    assert_ne!(secret.0, [0u8; 32]);
}
