use siwe_ex::address::{from_hex_address, from_hex_signature, to_checksummed};
use siwe_ex::message::SiweError;
use siwe_ex::parse::parse;
use siwe_ex::record::{parse_if_valid, to_str, validate, validate_sig, Parsed};
use siwe_ex::verify::{generate_nonce, generate_nonce_of, valid_at, verify_signature, NONCE_LENGTH};

const SIGNED: &str = "localhost:4361 wants you to sign in with your Ethereum account:
0x6Da01670d8fc844e736095918bbE11fE8D564163

SIWE Notepad Example

URI: http://localhost:4361
Version: 1
Chain ID: 1
Nonce: kEWepMt9knR6lWJ6A
Issued At: 2021-12-07T18:28:18.807Z";

const SIGNATURE: &str = "0x6228b3ecd7bf2df018183aeab6b6f1db1e9f4e3cbe24560404112e25363540eb679934908143224d746bbb5e1aa65ab435684081f4dbb74a0fec57f98f40f5051c";

const FULL: &str = "example.com:8080 wants you to sign in with your Ethereum account:
0x6Da01670d8fc844e736095918bbE11fE8D564163


URI: https://example.com/login
Version: 1
Chain ID: 137
Nonce: ABCDEF01
Issued At: 2024-01-01T00:00:00Z
Expiration Time: 2024-01-02T00:00:00Z
Not Before: 2023-12-31T00:00:00Z
Request ID: req-42 / retry
Resources:
- ipfs://bafybeiemxf5abjwjbikoz4mc3a3dla6ual3jsgpdr4cjr3oz3evfyavhwq/
- https://example.com/my-web2-claim.json
- https://example.com/my-web2-claim.json";

const JAN_1_2024_NANOS: i128 = 1_704_067_200_000_000_000;

fn is_malformed(r: Result<siwe_ex::message::Message, SiweError>) -> bool {
    matches!(r, Err(SiweError::MalformedMessage(_)))
}

#[test]
fn example_scenario_parses_and_reproduces() {
    let text = "example.com wants you to sign in with your Ethereum account:
0x6Da01670d8fc844e736095918bbE11fE8D564163

Sign-in request

URI: https://example.com/login
Version: 1
Chain ID: 1
Nonce: ABCDEF01
Issued At: 2024-01-01T00:00:00Z";
    let m = parse(text).unwrap();
    assert_eq!(m.domain, "example.com");
    assert_eq!(m.statement.as_deref(), Some("Sign-in request"));
    assert_eq!(m.uri, "https://example.com/login");
    assert_eq!(m.chain_id, 1);
    assert_eq!(m.nonce, "ABCDEF01");
    assert_eq!(m.issued_at, "2024-01-01T00:00:00Z");
    assert!(m.expiration_time.is_none());
    assert!(m.not_before.is_none());
    assert!(m.request_id.is_none());
    assert!(m.resources.is_empty());
    assert_eq!(m.to_text(), text);
}

#[test]
fn example_scenario_with_short_address_is_rejected() {
    let text = "example.com wants you to sign in with your Ethereum account:
0x9D85ca56217D2bb651b00f15e694EB7E713637D

Sign-in request

URI: https://example.com/login
Version: 1
Chain ID: 1
Nonce: ABCDEF01
Issued At: 2024-01-01T00:00:00Z";
    assert!(is_malformed(parse(text)));
}

#[test]
fn full_message_round_trips() {
    let m = parse(FULL).unwrap();
    assert_eq!(m.domain, "example.com:8080");
    assert!(m.statement.is_none());
    assert_eq!(m.chain_id, 137);
    assert_eq!(m.expiration_time.as_deref(), Some("2024-01-02T00:00:00Z"));
    assert_eq!(m.not_before.as_deref(), Some("2023-12-31T00:00:00Z"));
    assert_eq!(m.request_id.as_deref(), Some("req-42 / retry"));
    assert_eq!(m.resources.len(), 3);
    assert_eq!(m.resources[1], m.resources[2]);
    assert_eq!(m.resources[0], "ipfs://bafybeiemxf5abjwjbikoz4mc3a3dla6ual3jsgpdr4cjr3oz3evfyavhwq/");
    let text = m.to_text();
    assert_eq!(text, FULL);
    let again = parse(&text).unwrap();
    assert_eq!(again.to_text(), text);
    assert_eq!(again.address, m.address);
}

#[test]
fn lowercase_address_is_read_and_written_checksummed() {
    let lower = SIGNED.replace("0x6Da01670d8fc844e736095918bbE11fE8D564163", "0x6da01670d8fc844e736095918bbe11fe8d564163");
    let m = parse(&lower).unwrap();
    assert_eq!(m.to_text(), SIGNED);
}

#[test]
fn checksum_is_idempotent() {
    let b = from_hex_address("0x6da01670d8fc844e736095918bbe11fe8d564163").unwrap();
    let c = to_checksummed(&b);
    assert_eq!(c, "0x6Da01670d8fc844e736095918bbE11fE8D564163");
    let b2 = from_hex_address(&c).unwrap();
    assert_eq!(b2, b);
    assert_eq!(to_checksummed(&b2), c);
    assert_eq!(b[0], 0x6d);
    assert_eq!(b[19], 0x63);
}

#[test]
fn address_text_errors() {
    assert!(matches!(from_hex_address("0x9D85ca56217D2bb651b00f15e694EB7E713637D"), Err(SiweError::MalformedAddress)));
    assert!(matches!(from_hex_address("0x6Da01670d8fc844e736095918bbE11fE8D56416g"), Err(SiweError::MalformedAddress)));
    assert_eq!(
        from_hex_address("6Da01670d8fc844e736095918bbE11fE8D564163").unwrap(),
        from_hex_address("0x6Da01670d8fc844e736095918bbE11fE8D564163").unwrap()
    );
}

#[test]
fn signature_is_accepted() {
    let m = parse(SIGNED).unwrap();
    let sig = from_hex_signature(SIGNATURE).unwrap();
    assert!(verify_signature(&m, &sig));
    let p = siwe_ex::record::parse(SIGNED).unwrap();
    assert!(validate_sig(&p, SIGNATURE));
    assert!(validate_sig(&p, &SIGNATURE[2..]));
}

#[test]
fn signature_is_rejected_on_tamper() {
    let m = parse(SIGNED).unwrap();
    let sig = from_hex_signature(SIGNATURE).unwrap();
    for i in [0usize, 17, 31, 32, 50, 63, 64] {
        let mut bad = sig;
        bad[i] ^= 0x01;
        assert!(!verify_signature(&m, &bad), "flipped byte {}", i);
    }
    let mut other = parse(SIGNED).unwrap();
    other.address[0] ^= 0xff;
    assert!(!verify_signature(&other, &sig));
    let mut odd_v = sig;
    odd_v[64] = 5;
    assert!(!verify_signature(&m, &odd_v));
}

#[test]
fn signature_text_errors() {
    assert!(matches!(from_hex_signature("0x1234"), Err(SiweError::InvalidSignature)));
    let p = siwe_ex::record::parse(SIGNED).unwrap();
    assert!(!validate_sig(&p, "0x1234"));
}

#[test]
fn time_window_edges() {
    let base = parse(SIGNED).unwrap();
    assert!(valid_at(&base, 0));
    assert!(valid_at(&base, i128::MAX));
    let mut nbf = base.clone();
    nbf.not_before = Some("2024-01-01T00:00:00Z".to_string());
    assert!(valid_at(&nbf, JAN_1_2024_NANOS));
    assert!(!valid_at(&nbf, JAN_1_2024_NANOS - 1));
    let mut exp = base.clone();
    exp.expiration_time = Some("2024-01-01T00:00:00Z".to_string());
    assert!(!valid_at(&exp, JAN_1_2024_NANOS));
    assert!(valid_at(&exp, JAN_1_2024_NANOS - 1));
    let mut offset = base.clone();
    offset.expiration_time = Some("2024-01-01T01:00:00+01:00".to_string());
    assert!(!valid_at(&offset, JAN_1_2024_NANOS));
}

#[test]
fn malformed_text_is_rejected() {
    let no_header = SIGNED.replace(" wants you to sign in with your Ethereum account:", "");
    assert!(is_malformed(parse(&no_header)));
    assert!(is_malformed(parse(&SIGNED.replace("Version: 1", "Version: 2"))));
    assert!(is_malformed(parse(&SIGNED.replace("URI: http://localhost:4361", "URI: /login"))));
    assert!(is_malformed(parse(&SIGNED.replace("Chain ID: 1", "Chain ID: 01"))));
    assert!(is_malformed(parse(&SIGNED.replace("Chain ID: 1", "Chain ID: 18446744073709551616"))));
    assert!(is_malformed(parse(&SIGNED.replace("kEWepMt9knR6lWJ6A", "kEWep-t9knR6lWJ6A"))));
    assert!(is_malformed(parse(&SIGNED.replace("2021-12-07T18:28:18.807Z", "yesterday"))));
    assert!(is_malformed(parse(&format!("{}\nResources:", SIGNED))));
    assert!(is_malformed(parse(&format!("{}\nSomething: else", SIGNED))));
    assert!(is_malformed(parse(&SIGNED.replace("localhost:4361 wants", "local host wants"))));
    assert!(is_malformed(parse("")));
}

#[test]
fn largest_chain_id_round_trips() {
    let text = SIGNED.replace("Chain ID: 1", "Chain ID: 18446744073709551615");
    let m = parse(&text).unwrap();
    assert_eq!(m.chain_id, u64::MAX);
    assert_eq!(m.to_text(), text);
    let zero = SIGNED.replace("Chain ID: 1", "Chain ID: 0");
    assert_eq!(parse(&zero).unwrap().chain_id, 0);
}

#[test]
fn nonce_shape() {
    let a = generate_nonce();
    let b = generate_nonce();
    assert_eq!(a.chars().count(), NONCE_LENGTH);
    assert!(a.chars().all(|c| c.is_ascii_alphanumeric()));
    assert_ne!(a, b);
    let long = generate_nonce_of(64);
    assert_eq!(long.len(), 64);
    assert!(long.chars().all(|c| c.is_ascii_alphanumeric()));
    assert_eq!(generate_nonce_of(0), "");
}

#[test]
fn record_round_trip_and_errors() {
    let p = siwe_ex::record::parse(SIGNED).unwrap();
    assert_eq!(p.address, "0x6Da01670d8fc844e736095918bbE11fE8D564163");
    assert_eq!(p.version, "1");
    assert_eq!(to_str(&p).unwrap(), SIGNED);
    let mut v2: Parsed = p.clone();
    v2.version = "2".to_string();
    assert!(matches!(to_str(&v2), Err(SiweError::Serialization(_))));
    let mut bad_time = p.clone();
    bad_time.expiration_time = Some("soon".to_string());
    assert!(matches!(bad_time.to_eip4361_message(), Err(SiweError::Serialization(_))));
    let mut empty_statement = p.clone();
    empty_statement.statement = Some(String::new());
    assert!(matches!(to_str(&empty_statement), Err(SiweError::Serialization(_))));
    assert!(matches!(siwe_ex::record::parse("nonsense"), Err(SiweError::MalformedMessage(_))));
}

#[test]
fn parse_if_valid_outcomes() {
    let now = JAN_1_2024_NANOS;
    let p = parse_if_valid(SIGNED, SIGNATURE, now).unwrap();
    assert_eq!(p.nonce, "kEWepMt9knR6lWJ6A");
    let flipped = SIGNATURE.replace("0x62", "0x63");
    assert!(matches!(parse_if_valid(SIGNED, &flipped, now), Err(SiweError::AuthenticationFailed)));
    assert!(matches!(parse_if_valid("nonsense", SIGNATURE, now), Err(SiweError::AuthenticationFailed)));
    assert!(matches!(parse_if_valid(SIGNED, "0x12", now), Err(SiweError::AuthenticationFailed)));
    let rec = siwe_ex::record::parse(SIGNED).unwrap();
    assert!(validate(&rec, SIGNATURE, now));
    assert!(!validate(&rec, &flipped, now));
}
