use aes::cipher::{BlockDecrypt, KeyInit};
use titan::api::failure_infos;
use titan::desktop::split_host_port;
use titan::http::{parse_connect_target, parse_host_header};
use titan::outbound::ProxyFailureInfo;
use titan::subscription::SubscriptionMetadata;
use titan::target::Target;
use titan::testing::{build_report, test_item};
use titan::vless::VlessResponseHeader;
use titan::vmess::{build_auth_id, fnv1a32, request_header};

#[test]
fn written_addresses_read_back() {
    for (host, port) in [("example.com", 443u16), ("10.0.0.1", 0), ("::1", 65535), ("a:b", 8080)] {
        let addr = Target::new(host.to_string(), port).addr();
        let t = parse_connect_target(&addr).unwrap();
        assert_eq!((t.host.as_str(), t.port), (host, port));
        let h = parse_host_header(&addr);
        assert_eq!((h.host.as_str(), h.port), (host, port));
        assert_eq!(split_host_port(&addr), (host.to_string(), port));
    }
}

#[test]
fn remaining_and_used_make_the_total() {
    let mut m = SubscriptionMetadata::empty();
    m.upload = Some(300);
    m.download = Some(200);
    m.total = Some(1_000);
    assert_eq!(m.remaining().unwrap() + m.used().unwrap(), 1_000);
}

#[test]
fn report_counts_cover_items() {
    let items = vec![
        test_item("a".to_string(), None),
        test_item("b".to_string(), Some(("b".to_string(), Ok(1)))),
        test_item("c".to_string(), Some(("c".to_string(), Err("e".to_string())))),
    ];
    let r = build_report("m".to_string(), "s".to_string(), "u".to_string(), 1, 2, items);
    assert_eq!(r.ok + r.failed + r.skipped, r.items.len());
}

#[test]
fn request_header_ends_with_its_checksum() {
    for margin in [0u8, 5, 15] {
        let padding = vec![0xEEu8; margin as usize];
        let h = request_header(&[3u8; 33], margin, &padding, 4, 443, &[2, 1, b'x']);
        let (body, tail) = h.split_at(h.len() - 4);
        assert_eq!(tail, &fnv1a32(body).to_be_bytes());
    }
}

#[test]
fn response_header_completes_at_its_length() {
    for n in [0u8, 1, 7] {
        let mut h = VlessResponseHeader::new();
        let mut bytes = vec![0u8, n];
        bytes.extend(std::iter::repeat(9u8).take(n as usize));
        for (i, b) in bytes.iter().enumerate() {
            assert!(h.pending, "complete before byte {}", i);
            h.push(&[*b]);
        }
        assert!(!h.pending);
        assert_eq!(h.need(), Ok(0));
    }
}

#[test]
fn auth_id_decrypts_to_a_checked_id() {
    let key = [0x42u8; 16];
    let sealed = build_auth_id(&key);
    let cipher = aes::Aes128::new((&key).into());
    let mut plain = sealed;
    cipher.decrypt_block((&mut plain).into());
    assert_eq!(u32::from_be_bytes(plain[12..16].try_into().unwrap()), crc32c::crc32c(&plain[0..12]));
    let now = std::time::SystemTime::now().duration_since(std::time::UNIX_EPOCH).unwrap().as_secs();
    let stamp = u64::from_be_bytes(plain[0..8].try_into().unwrap());
    assert!(stamp <= now && now - stamp < 60);
}

#[test]
fn failure_records_keep_their_figures() {
    let f = ProxyFailureInfo {
        name: "n".to_string(),
        message: "m".to_string(),
        first_failed_unix: 1_700_000_000,
        last_failed_unix: 1_700_000_100,
        failures: 3,
    };
    let r = failure_infos(vec![f]);
    assert_eq!(r.len(), 1);
    assert_eq!((r[0].name.as_str(), r[0].failures, r[0].last_failed_unix), ("n", 3, 1_700_000_100));
    assert!(r[0].first_failed_local.is_some());
}
