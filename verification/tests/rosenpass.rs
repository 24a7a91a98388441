use innernet_rp::rosenpass::{
    event_seen, interface_rosenpass_dir, interim_preshared_key, join_path, parse_output_key_line,
    parse_semver, read_public_key_base64, version_supported, we_dial, DaemonPaths, ExchangeEvent,
    RosenpassKeyPaths, MIN_ROSENPASS_VERSION, ROSENPASS_PUBLIC_KEY_LEN,
};
use sha2::{Digest, Sha256};
use std::path::Path;

fn path_text(p: std::path::PathBuf) -> String {
    p.to_str().unwrap().to_string()
}

#[test]
fn test_key_paths() {
    let dir = Path::new("/tmp/example/rosenpass");
    let paths = RosenpassKeyPaths::new("/tmp/example/rosenpass");
    assert_eq!(paths.public_key, path_text(dir.join("public-key")));
    assert_eq!(paths.secret_key, path_text(dir.join("secret-key")));
}

#[test]
fn key_paths_of_a_directory_with_a_trailing_slash() {
    let paths = RosenpassKeyPaths::new("/tmp/example/rosenpass/");
    assert_eq!(paths.public_key, "/tmp/example/rosenpass/public-key");
    assert_eq!(join_path("", "x"), "x");
    assert_eq!(
        interface_rosenpass_dir("/var/lib/innernet", "wg0"),
        "/var/lib/innernet/rosenpass/wg0"
    );
}

#[test]
fn daemon_paths_live_in_the_rosenpass_directory() {
    let paths = DaemonPaths::new("/d/rp");
    assert_eq!(paths.config, "/d/rp/rosenpass.toml");
    assert_eq!(paths.log, "/d/rp/rosenpass.log");
    assert_eq!(paths.log_offset, "/d/rp/rosenpass.log.offset");
    assert_eq!(paths.pid, "/d/rp/rosenpass.pid");
    assert_eq!(DaemonPaths::peer_public_key_path("/d/rp", 3), "/d/rp/peers/3.pub");
    assert_eq!(DaemonPaths::peer_key_out_path("/d/rp", 42), "/d/rp/peers/42.psk");
    assert_eq!(DaemonPaths::peer_key_out_path("/d/rp", -7), "/d/rp/peers/-7.psk");
}

#[test]
fn public_key_files_of_the_wrong_length_are_refused() {
    assert_eq!(read_public_key_base64(b"too short"), Err(9));
    let raw = vec![0x42u8; ROSENPASS_PUBLIC_KEY_LEN];
    let encoded = read_public_key_base64(&raw).unwrap();
    // 4 * ceil(524160 / 3) characters of padded base64.
    assert_eq!(encoded.len(), 698880);
    assert_eq!(&encoded[..4], b"QkJC");
}

#[test]
fn test_parse_semver() {
    assert_eq!(parse_semver("0.2.3"), Some((0, 2, 3)));
    assert_eq!(parse_semver("1.10.20"), Some((1, 10, 20)));
    assert_eq!(parse_semver(""), None);
    assert_eq!(parse_semver("not-a-version"), None);
    assert_eq!(parse_semver("0.2"), None);
    assert_eq!(parse_semver("v0.2.3"), None);
}

#[test]
fn test_min_rosenpass_version_ordering() {
    assert!((0, 2, 0) < MIN_ROSENPASS_VERSION);
    assert!((0, 1, 99) < MIN_ROSENPASS_VERSION);
    assert!((0, 2, 1) >= MIN_ROSENPASS_VERSION);
    assert!((0, 3, 0) >= MIN_ROSENPASS_VERSION);
    assert!((1, 0, 0) >= MIN_ROSENPASS_VERSION);
}

#[test]
fn version_support_follows_the_tuple_order() {
    assert!(!version_supported((0, 2, 0)));
    assert!(!version_supported((0, 1, 99)));
    assert!(version_supported((0, 2, 1)));
    assert!(version_supported((0, 3, 0)));
    assert!(version_supported((1, 0, 0)));
}

#[test]
fn test_we_dial_server_is_always_listener_never_dialer() {
    assert!(!we_dial(1, 2));
    assert!(!we_dial(1, 50));
}

#[test]
fn test_we_dial_clients_always_dial_the_server() {
    assert!(we_dial(2, 1));
    assert!(we_dial(50, 1));
}

#[test]
fn test_we_dial_falls_back_to_lower_id_tie_break_between_two_clients() {
    assert!(we_dial(2, 3));
    assert!(!we_dial(3, 2));
}

#[test]
fn exactly_one_of_two_distinct_peers_dials() {
    for (a, b) in [(1i64, 2i64), (2, 1), (5, 9), (9, 5), (-3, 4)] {
        assert_ne!(we_dial(a, b), we_dial(b, a));
    }
}

#[test]
fn test_interim_preshared_key_symmetric_and_deterministic() {
    let a = "a-public-key";
    let b = "b-public-key";
    let from_a_b = interim_preshared_key(a, b);
    let from_b_a = interim_preshared_key(b, a);
    assert_eq!(
        from_a_b, from_b_a,
        "both sides must derive the same interim PSK regardless of argument order"
    );
    let different = interim_preshared_key(a, "some-other-key");
    assert_ne!(from_a_b, different);
}

#[test]
fn interim_key_is_the_digest_of_the_label_and_sorted_keys() {
    let mut hasher = Sha256::new();
    hasher.update(b"innernet-rosenpass-interim-psk-v1");
    hasher.update(b"a-public-key");
    hasher.update(b"b-public-key");
    let expected: [u8; 32] = hasher.finalize().into();
    assert_eq!(interim_preshared_key("b-public-key", "a-public-key"), expected);
    // A prefix sorts first.
    assert_eq!(interim_preshared_key("ab", "a"), interim_preshared_key("a", "ab"));
}

#[test]
fn test_parse_output_key_line() {
    let exchanged = parse_output_key_line(
        r#"output-key peer YBVIgpfLbi/knrMCTEb0L6eVy0daiZnJJQkxBK9s+2I= key-file "/data/rosenpass/peers/3.psk" exchanged"#,
    )
    .unwrap();
    assert!(exchanged.fresh);
    assert_eq!(exchanged.key_out_path, b"/data/rosenpass/peers/3.psk".to_vec());

    let stale = parse_output_key_line(
        r#"output-key peer YBVIgpfLbi/knrMCTEb0L6eVy0daiZnJJQkxBK9s+2I= key-file "/data/rosenpass/peers/3.psk" stale"#,
    )
    .unwrap();
    assert!(!stale.fresh);

    assert!(parse_output_key_line("some unrelated log line").is_none());
}

#[test]
fn test_parse_output_key_line_malformed_input_rejected() {
    let long_line = format!(
        "output-key peer {} key-file \"{}\" exchanged",
        "A".repeat(1_000_000),
        "/x/".to_string() + &"y".repeat(1_000_000)
    );
    let malformed = [
        "",
        "output-key peer",
        "output-key peer AAAA",
        "output-key peer AAAA key-file",
        r#"output-key peer AAAA key-file "/x/1.psk""#,
        r#"output-key peer AAAA key-file "/x/1.psk" pending"#,
        r#"output-key peer AAAA key-file "" exchanged"#,
        "output-key AAAA key-file \"/x/1.psk\" exchanged",
        r#"OUTPUT-KEY PEER AAAA KEY-FILE "/x/1.psk" EXCHANGED"#,
        long_line.as_str(),
        "output-key peer AAAA key-file \"/x/1\0.psk\" exchanged",
        "output-key peer AAAA🔑 key-file \"/x/1.psk\" exchanged",
    ];
    for line in malformed {
        let result = parse_output_key_line(line);
        if line.contains("exchanged") && line.contains("key-file") && !line.contains("pending") {
            if let Some(event) = result {
                assert!(event.fresh);
            }
        } else {
            assert!(result.is_none(), "expected None for malformed line: {line:?}");
        }
    }
}

#[test]
fn events_are_found_by_path_and_freshness() {
    let events = vec![
        ExchangeEvent { key_out_path: b"/x/1.psk".to_vec(), fresh: false },
        ExchangeEvent { key_out_path: b"/x/2.psk".to_vec(), fresh: true },
    ];
    assert!(event_seen(&events, b"/x/2.psk", true));
    assert!(!event_seen(&events, b"/x/1.psk", true));
    assert!(event_seen(&events, b"/x/1.psk", false));
    assert!(!event_seen(&[], b"/x/1.psk", false));
}

use innernet_rp::rosenpass::{log_start, scan_log};

#[test]
fn test_poll_new_events_only_returns_new_lines() {
    let first = "output-key peer AAAA key-file \"/x/1.psk\" exchanged\n";
    let (events, offset) = scan_log(first, log_start(0, first.len() as u64), first.len() as u64);
    assert_eq!(events, vec![ExchangeEvent { key_out_path: b"/x/1.psk".to_vec(), fresh: true }]);
    assert_eq!(offset, first.len() as u64);
    // Only what was appended since is scanned next time.
    let second = "output-key peer AAAA key-file \"/x/1.psk\" stale";
    let len = (first.len() + second.len()) as u64;
    assert_eq!(log_start(offset, len), offset);
    let (events, next) = scan_log(second, offset, len);
    assert_eq!(events, vec![ExchangeEvent { key_out_path: b"/x/1.psk".to_vec(), fresh: false }]);
    assert_eq!(next, len + 1);
    // A recreated, shorter log is read from its start.
    assert_eq!(log_start(next, 10), 0);
}

#[test]
fn scanning_counts_every_line_and_its_newline() {
    let text = "noise\r\nmore\n\noutput-key peer P key-file \"/k/2.psk\" exchanged\r\ntail";
    let (events, offset) = scan_log(text, 7, 100);
    assert_eq!(events, vec![ExchangeEvent { key_out_path: b"/k/2.psk".to_vec(), fresh: true }]);
    // Lines "noise", "more", "", the event line and "tail", each plus one.
    let lines = 5 + 4 + 0 + "output-key peer P key-file \"/k/2.psk\" exchanged".len() + 4;
    assert_eq!(offset, 7 + lines as u64 + 5);
    assert_eq!(scan_log("", 40, 30), (vec![], 30));
}

#[test]
fn the_exchange_port_follows_the_wireguard_port() {
    assert_eq!(innernet_rp::rosenpass::rosenpass_port(51820), 51821);
    assert_eq!(innernet_rp::rosenpass::rosenpass_port(0), 1);
    assert_eq!(innernet_rp::rosenpass::rosenpass_port(65535), 51821);
}

use innernet_rp::rosenpass::daemon_peers;

#[test]
fn the_daemon_takes_enabled_keyed_peers_other_than_ourselves() {
    // (identifier, disabled, ourselves, has a Rosenpass key)
    let entries = [(1, false, false, true), (2, false, true, true), (3, false, false, true), (4, true, false, true), (5, false, false, false), (0, false, false, true)];
    // As peer 2: dial the server and higher peers, never ourselves.
    assert_eq!(daemon_peers(&entries, Some(2)), vec![(1, true), (3, true), (0, false)]);
    // As the server: only listen.
    assert_eq!(daemon_peers(&entries, Some(1)), vec![(1, false), (3, false), (0, false)]);
    // Our identifier unknown: never dial.
    assert_eq!(daemon_peers(&entries, None), vec![(1, false), (3, false), (0, false)]);
    assert!(daemon_peers(&[], Some(2)).is_empty());
}

use base64::Engine;
use innernet_rp::rosenpass::{decode_peer_key, peer_key_update};

fn dummy_key_base64() -> String {
    // The base64 length of a raw Rosenpass public key.
    "A".repeat(ROSENPASS_PUBLIC_KEY_LEN.div_ceil(3) * 4)
}

#[test]
fn test_cache_peer_key_writes_and_skips_when_up_to_date() {
    let key = dummy_key_base64();
    // Nothing cached yet: the decoded key is written.
    let raw = peer_key_update(None, key.as_bytes()).unwrap().unwrap();
    assert_eq!(raw.len(), ROSENPASS_PUBLIC_KEY_LEN);
    let cached = read_public_key_base64(&raw).unwrap();
    assert_eq!(cached, key.as_bytes());
    // Caching the same key again is a no-op.
    assert_eq!(peer_key_update(Some(&cached), key.as_bytes()), Ok(None));
}

#[test]
fn test_cache_peer_key_rejects_invalid_base64() {
    // Right length, but not valid base64 (all invalid characters).
    let bad_key = "!".repeat(ROSENPASS_PUBLIC_KEY_LEN.div_ceil(3) * 4);
    assert!(peer_key_update(None, bad_key.as_bytes()).is_err());
    assert!(decode_peer_key(bad_key.as_bytes()).is_none());
}

#[test]
fn test_cache_peer_key_updates_when_key_changes() {
    let key_a = dummy_key_base64();
    let raw_b = vec![0x42u8; ROSENPASS_PUBLIC_KEY_LEN];
    let key_b = base64::engine::general_purpose::STANDARD.encode(&raw_b);
    let raw_a = peer_key_update(None, key_a.as_bytes()).unwrap().unwrap();
    let cached_a = read_public_key_base64(&raw_a).unwrap();
    assert_eq!(cached_a, key_a.as_bytes());
    let update = peer_key_update(Some(&cached_a), key_b.as_bytes()).unwrap().unwrap();
    assert_eq!(update, raw_b);
    assert_eq!(read_public_key_base64(&update).unwrap(), key_b.as_bytes());
}
