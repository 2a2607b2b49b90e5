use titan::config::ProxyConfig;
use titan::http::{connect_succeeded, find_header_end, head_progress, HeadProgress, HttpProxy};
use titan::socks5::{
    ipv4_address_text, request_target, RequestedHost,
    check_auth_reply, check_connect_reply, check_request, negotiate_method, socks5_reply, AuthMethod,
    BoundAddress, InboundSocksError, Socks5Error, Socks5Proxy,
};
use titan::target::{host_bytes, HostAddress, Target};
use titan::vless::{alpn_protocols, VlessError, VlessProxy, VlessResponseHeader};
use titan::vmess::{
    auth_id_plain, encode_target, fnv1a32, frame_length_bytes, frame_step, request_header, DataCipher, FrameStep,
    LengthMask, VMessProxy, VmessError,
};

fn proxy(name: &str, kind: &str) -> ProxyConfig {
    let mut c = ProxyConfig::empty();
    c.name = name.to_string();
    c.proxy_type = kind.to_string();
    c.server = "127.0.0.1".to_string();
    c.port = 1080;
    c
}

fn example_target() -> Target {
    Target::new("example.com".to_string(), 443)
}

#[test]
fn connects_via_socks5() {
    let config = proxy("socks5-outbound", "socks5");
    let p = Socks5Proxy::from_config(&config);
    assert_eq!(p.greeting(), vec![0x05, 0x01, 0x00]);
    assert_eq!(p.choose_method(0x05, 0x00), Ok(AuthMethod::NoAuthentication));
    let req = p.connect_request(&example_target(), &HostAddress::Name).unwrap();
    assert_eq!(&req[0..4], &[0x05, 0x01, 0x00, 0x03]);
    assert_eq!(req[4] as usize, "example.com".len());
    assert_eq!(&req[5..16], b"example.com");
    assert_eq!(u16::from_be_bytes([req[16], req[17]]), 443);
    assert_eq!(req.len(), 18);
    assert_eq!(check_connect_reply(0x05, 0x00, 0x01), Ok(BoundAddress::Ipv4));
}

#[test]
fn socks5_with_credentials() {
    let mut config = proxy("s", "socks5");
    config.password = Some("pass".to_string());
    config.extra.push(("username".to_string(), titan::config::ExtraValue::Text("user".to_string())));
    let p = Socks5Proxy::from_config(&config);
    assert_eq!(p.greeting(), vec![0x05, 0x02, 0x00, 0x02]);
    assert_eq!(p.choose_method(0x05, 0x02), Ok(AuthMethod::UsernamePassword));
    let auth = p.auth_request().unwrap();
    assert_eq!(auth, vec![1, 4, b'u', b's', b'e', b'r', 4, b'p', b'a', b's', b's']);
}

#[test]
fn socks5_errors() {
    let p = Socks5Proxy::from_config(&proxy("s", "socks5"));
    assert_eq!(p.choose_method(0x04, 0x00), Err(Socks5Error::InvalidVersion(4)));
    assert_eq!(p.choose_method(0x05, 0x02), Err(Socks5Error::CredentialsRequired));
    assert_eq!(p.choose_method(0x05, 0xFF), Err(Socks5Error::NoAcceptableMethod));
    assert_eq!(p.choose_method(0x05, 0x07), Err(Socks5Error::UnsupportedMethod(7)));
    assert_eq!(check_auth_reply(0x01, 0x00), Ok(()));
    assert_eq!(check_auth_reply(0x01, 0x01), Err(Socks5Error::AuthenticationFailed));
    assert_eq!(check_connect_reply(0x04, 0x00, 0x01), Err(Socks5Error::InvalidReplyVersion(4)));
    assert_eq!(check_connect_reply(0x05, 0x05, 0x01), Err(Socks5Error::ConnectFailed(5)));
    assert_eq!(check_connect_reply(0x05, 0x00, 0x09), Err(Socks5Error::UnsupportedAddressType(9)));
    assert_eq!(check_connect_reply(0x05, 0x00, 0x03), Ok(BoundAddress::Name));
    assert_eq!(check_connect_reply(0x05, 0x00, 0x04), Ok(BoundAddress::Ipv6));
    let long_host = "a".repeat(256);
    let t = Target::new(long_host, 80);
    assert_eq!(p.connect_request(&t, &HostAddress::Name), Err(Socks5Error::HostnameTooLong));
    let mut c = proxy("s", "socks5");
    c.password = Some("x".repeat(256));
    c.extra.push(("username".to_string(), titan::config::ExtraValue::Text("u".to_string())));
    let p = Socks5Proxy::from_config(&c);
    assert_eq!(p.auth_request(), Err(Socks5Error::CredentialsTooLong));
}

#[test]
fn socks5_ip_targets() {
    let p = Socks5Proxy::from_config(&proxy("s", "socks5"));
    let t = Target::new("10.0.0.1".to_string(), 8080);
    let req = p.connect_request(&t, &HostAddress::Ipv4([10, 0, 0, 1])).unwrap();
    assert_eq!(req, vec![5, 1, 0, 1, 10, 0, 0, 1, 0x1F, 0x90]);
    let mut six = [0u8; 16];
    six[15] = 1;
    let req = p.connect_request(&Target::new("::1".to_string(), 53), &HostAddress::Ipv6(six)).unwrap();
    assert_eq!(req.len(), 4 + 16 + 2);
    assert_eq!(req[3], 4);
    assert_eq!(&req[20..22], &[0, 53]);
}

#[test]
fn socks5_inbound_negotiation() {
    assert_eq!(socks5_reply(0), [5, 0, 0, 1, 0, 0, 0, 0, 0, 0]);
    assert_eq!(socks5_reply(7), [5, 7, 0, 1, 0, 0, 0, 0, 0, 0]);
    let (reply, r) = negotiate_method(5, &[0x02, 0x00]);
    assert_eq!(reply, Some([5, 0]));
    assert!(r.is_ok());
    let (reply, r) = negotiate_method(5, &[0x02]);
    assert_eq!(reply, Some([5, 0xFF]));
    assert_eq!(r, Err(InboundSocksError::NoAuthUnsupported));
    let (reply, r) = negotiate_method(4, &[0x00]);
    assert_eq!(reply, None);
    assert_eq!(r, Err(InboundSocksError::NotSocks5));
    assert_eq!(check_request(5, 1, 1), Ok(BoundAddress::Ipv4));
    assert_eq!(check_request(5, 1, 3), Ok(BoundAddress::Name));
    assert_eq!(check_request(5, 1, 4), Ok(BoundAddress::Ipv6));
    assert_eq!(check_request(4, 1, 1), Err((1, InboundSocksError::InvalidRequestVersion)));
    assert_eq!(check_request(5, 2, 1), Err((7, InboundSocksError::UnsupportedCommand)));
    assert_eq!(check_request(5, 1, 9), Err((8, InboundSocksError::UnsupportedAddressType)));
}

#[test]
fn connects_via_http_connect() {
    let config = proxy("http-outbound", "http");
    let p = HttpProxy::from_config(&config);
    let req = p.connect_request(&example_target());
    assert!(req.contains("CONNECT example.com:443 HTTP/1.1"));
    assert!(req.contains("Host: example.com:443"));
    assert!(req.ends_with("\r\n\r\n"));
    assert!(p.proxy_authorization_header().is_none());
    let answer = b"HTTP/1.1 200 Connection Established\r\n\r\n";
    assert!(connect_succeeded(answer));
    assert_eq!(find_header_end(answer), Some(answer.len() - 4));
}

#[test]
fn http_proxy_authorization() {
    let mut c = proxy("h", "http");
    c.password = Some("pass".to_string());
    c.extra.push(("username".to_string(), titan::config::ExtraValue::Text("user".to_string())));
    let p = HttpProxy::from_config(&c);
    assert_eq!(p.proxy_authorization_header(), Some("Proxy-Authorization: Basic dXNlcjpwYXNz\r\n".to_string()));
    let req = p.connect_request(&example_target());
    assert_eq!(
        req,
        "CONNECT example.com:443 HTTP/1.1\r\nHost: example.com:443\r\nProxy-Connection: Keep-Alive\r\nUser-Agent: Titan/0.1\r\nProxy-Authorization: Basic dXNlcjpwYXNz\r\n\r\n"
    );
    assert!(!connect_succeeded(b"HTTP/1.1 407 Proxy Authentication Required\r\n\r\n"));
    assert!(connect_succeeded(b"HTTP/1.0 200 OK\r\n\r\n"));
}

#[test]
fn head_progress_limits() {
    assert_eq!(head_progress(b"HTTP/1.1 200 OK\r\n\r\n", 16), HeadProgress::Complete);
    assert_eq!(head_progress(b"HTTP/1.1 200 OK\r\n", 64), HeadProgress::Incomplete);
    assert_eq!(head_progress(b"HTTP/1.1 200 OK\r\n", 4), HeadProgress::TooLarge);
    assert_eq!(find_header_end(b"abc"), None);
}

#[test]
fn connects_via_vless_tcp() {
    let mut config = proxy("vless-outbound", "vless");
    config.uuid = Some("123e4567-e89b-12d3-a456-426614174000".to_string());
    let p = VlessProxy::from_config(&config);
    assert_eq!(p.validate(), Ok(()));
    let prefix = p.request_header(&example_target(), &HostAddress::Name).unwrap();
    assert_eq!(prefix[0], 0x00);
    assert_eq!(
        &prefix[1..17],
        &[0x12, 0x3e, 0x45, 0x67, 0xe8, 0x9b, 0x12, 0xd3, 0xa4, 0x56, 0x42, 0x66, 0x14, 0x17, 0x40, 0x00]
    );
    assert_eq!(prefix[17], 0x00);
    assert_eq!(prefix[18], 0x01);
    assert_eq!(u16::from_be_bytes([prefix[19], prefix[20]]), 443);
    assert_eq!(prefix[21], 0x02);
    assert_eq!(prefix[22] as usize, "example.com".len());
    assert_eq!(&prefix[23..], b"example.com");

    let mut response = VlessResponseHeader::new();
    assert_eq!(response.need(), Ok(2));
    response.push(&[0x00, 0x00]);
    assert!(!response.pending);
    assert_eq!(response.need(), Ok(0));
}

#[test]
fn vless_refusals() {
    let mut config = proxy("v", "vless");
    let p = VlessProxy::from_config(&config);
    assert_eq!(p.validate(), Err(VlessError::MissingUuid));
    config.uuid = Some("not-a-uuid".to_string());
    let p = VlessProxy::from_config(&config);
    assert_eq!(p.validate(), Ok(()));
    assert_eq!(p.request_header(&example_target(), &HostAddress::Name), Err(VlessError::InvalidUuid));
    config.network = Some("ws".to_string());
    assert_eq!(VlessProxy::from_config(&config).validate(), Err(VlessError::UnsupportedNetwork));
    config.network = Some("TCP".to_string());
    config.flow = Some("xtls-rprx-vision".to_string());
    assert_eq!(VlessProxy::from_config(&config).validate(), Err(VlessError::UnsupportedFlow));
    config.flow = None;
    config.uuid = Some("123e4567-e89b-12d3-a456-426614174000".to_string());
    let p = VlessProxy::from_config(&config);
    let long = Target::new("b".repeat(300), 443);
    assert_eq!(p.request_header(&long, &HostAddress::Name), Err(VlessError::HostnameTooLong));

    let mut response = VlessResponseHeader::new();
    response.push(&[0x00, 0x02]);
    assert!(response.pending);
    assert_eq!(response.need(), Ok(2));
    response.push(&[0xAA, 0xBB]);
    assert!(!response.pending);
    let mut bad = VlessResponseHeader::new();
    bad.push(&[0x01, 0x00]);
    assert_eq!(bad.need(), Err(VlessError::InvalidResponseVersion(1)));
}

#[test]
fn vless_alpn_defaults() {
    assert_eq!(alpn_protocols(&None), vec![b"h2".to_vec(), b"http/1.1".to_vec()]);
    assert_eq!(alpn_protocols(&Some(vec!["h3".to_string()])), vec![b"h3".to_vec()]);
}

#[test]
fn connects_via_vmess_tcp() {
    let mut config = proxy("vmess-outbound", "vmess");
    config.uuid = Some("123e4567-e89b-12d3-a456-426614174000".to_string());
    config.cipher = Some("auto".to_string());
    let p = VMessProxy::from_config(&config);
    assert_eq!(p.cipher, DataCipher::Aes128Gcm);
    assert_eq!(p.validate(), Ok(()));
    let header = p.new_request_header(&example_target(), &HostAddress::Name).unwrap();
    assert_eq!(header[0], 1);
    assert_eq!(header[34], 5);
    assert_eq!(header[35] & 0x0F, 3);
    assert_eq!(header[37], 0x01);
    assert_eq!(u16::from_be_bytes([header[38], header[39]]), 443);
    assert_eq!(header[40], 0x02);
    assert_eq!(header[41] as usize, "example.com".len());
    assert_eq!(&header[42..42 + "example.com".len()], b"example.com");
    let body = &header[..header.len() - 4];
    let sum = u32::from_be_bytes(header[header.len() - 4..].try_into().unwrap());
    assert_eq!(sum, fnv1a32(body));
    let margin = (header[35] >> 4) as usize;
    assert_eq!(header.len(), 42 + 11 + margin + 4);
}

#[test]
fn vmess_ciphers_and_errors() {
    assert_eq!(DataCipher::from_config(None), DataCipher::Aes128Gcm);
    assert_eq!(DataCipher::from_config(Some("CHACHA20-POLY1305")), DataCipher::ChaCha20Poly1305);
    assert_eq!(DataCipher::from_config(Some("chacha20-ietf-poly1305")), DataCipher::ChaCha20Poly1305);
    assert_eq!(DataCipher::from_config(Some("none")), DataCipher::Unencrypted);
    assert_eq!(DataCipher::from_config(Some("zero")), DataCipher::Aes128Gcm);
    assert_eq!(DataCipher::Unencrypted.method(), 5);
    assert_eq!(DataCipher::ChaCha20Poly1305.method(), 4);
    let mut config = proxy("m", "vmess");
    assert_eq!(VMessProxy::from_config(&config).validate(), Err(VmessError::MissingUuid));
    config.uuid = Some("123e4567-e89b-12d3-a456-426614174000".to_string());
    config.network = Some("grpc".to_string());
    assert_eq!(VMessProxy::from_config(&config).validate(), Err(VmessError::UnsupportedNetwork));
    let long = Target::new("c".repeat(256), 1);
    assert_eq!(encode_target(&long, &HostAddress::Name), Err(VmessError::HostnameTooLong));
    assert_eq!(
        encode_target(&Target::new("1.2.3.4".to_string(), 1), &HostAddress::Ipv4([1, 2, 3, 4])),
        Ok(vec![1, 1, 2, 3, 4])
    );
}

#[test]
fn vmess_header_layout() {
    let random = [7u8; 33];
    let h = request_header(&random, 2, &[9, 9], 3, 8080, &[1, 10, 0, 0, 1]);
    assert_eq!(h[0], 1);
    assert_eq!(&h[1..34], &random);
    assert_eq!(&h[34..40], &[5, 0x23, 0, 1, 0x1F, 0x90]);
    assert_eq!(&h[40..45], &[1, 10, 0, 0, 1]);
    assert_eq!(&h[45..47], &[9, 9]);
    assert_eq!(h.len(), 51);
}

#[test]
fn vmess_fnv_known_values() {
    assert_eq!(fnv1a32(b""), 0x811c9dc5);
    assert_eq!(fnv1a32(b"a"), 0xe40c292c);
    assert_eq!(fnv1a32(b"foobar"), 0xbf9cf968);
}

#[test]
fn vmess_auth_id_checksum() {
    let id = auth_id_plain(0x0102030405060708, &[0xAA, 0xBB, 0xCC, 0xDD]);
    assert_eq!(&id[0..8], &[1, 2, 3, 4, 5, 6, 7, 8]);
    assert_eq!(&id[8..12], &[0xAA, 0xBB, 0xCC, 0xDD]);
    let sum = u32::from_be_bytes(id[12..16].try_into().unwrap());
    assert_eq!(sum, crc32c::crc32c(&id[0..12]));
}

#[test]
fn vmess_framing() {
    assert_eq!(frame_step(10, 5), FrameStep::Incomplete);
    assert_eq!(frame_step(16, 16), FrameStep::End);
    assert_eq!(frame_step(40, 100), FrameStep::Body(40));
    assert_eq!(frame_length_bytes(300, None), [1, 44]);
    assert_eq!(frame_length_bytes(0x1234, Some(0x00FF)), [0x12, 0xCB]);
}

#[test]
fn length_masks_follow_the_shake128_stream() {
    let iv = [7u8; 16];
    let mut stream = vec![0u8; 400];
    <sha3::Shake128 as digest::ExtendableOutput>::digest_xof(&iv, &mut stream);
    assert_eq!(&stream[..4], &[0xf4, 0xe3, 0xad, 0x30]);
    let mut mask = LengthMask::new(&iv);
    for k in 0..200 {
        let expected = u16::from_be_bytes([stream[2 * k], stream[2 * k + 1]]);
        assert_eq!(mask.next_u16(), expected);
    }
}

#[test]
fn target_address_text() {
    assert_eq!(Target::new("example.com".to_string(), 443).addr(), "example.com:443");
    assert_eq!(host_bytes("héllo"), "héllo".as_bytes().to_vec());
}

#[test]
fn reject_refuses_every_connection_and_delay_test() {
    let p = titan::proxies::RejectProxy::new();
    assert_eq!(p.name(), "REJECT");
    assert!(!p.supports_udp());
    assert_eq!(p.connect_tcp(&example_target()), Err(titan::proxies::RejectError::Refused));
    assert_eq!(p.delay_test("http://www.gstatic.com/generate_204", 5000), Err(titan::proxies::RejectError::Refused));
    assert_eq!(titan::proxies::RejectError::Refused.message(), "连接被拒绝");
    assert!(titan::proxies::DirectProxy::new().supports_udp());
}

#[test]
fn inbound_request_target_is_decoded() {
    let request = [0x05u8, 0x01, 0x00, 0x03, 11, b'e', b'x', b'a', b'm', b'p', b'l', b'e', b'.', b'c', b'o', b'm', 0x01, 0xBB];
    assert_eq!(check_request(request[0], request[1], request[3]), Ok(BoundAddress::Name));
    assert_eq!(
        request_target(&BoundAddress::Name, &request[4..]),
        Ok((RequestedHost::Name("example.com".to_string()), 443))
    );
    assert_eq!(
        request_target(&BoundAddress::Ipv4, &[127, 0, 0, 1, 0x1F, 0x90]),
        Ok((RequestedHost::Ipv4([127, 0, 0, 1]), 8080))
    );
    assert_eq!(ipv4_address_text(&[127, 0, 0, 1]), "127.0.0.1");
    assert_eq!(ipv4_address_text(&[192, 168, 10, 254]), "192.168.10.254");
    let mut v6 = [0u8; 18];
    v6[15] = 1;
    v6[17] = 80;
    let mut octets = [0u8; 16];
    octets[15] = 1;
    assert_eq!(request_target(&BoundAddress::Ipv6, &v6), Ok((RequestedHost::Ipv6(octets), 80)));
    assert_eq!(request_target(&BoundAddress::Ipv4, &[1, 2, 3]), Err(InboundSocksError::Truncated));
    assert_eq!(request_target(&BoundAddress::Name, &[5, b'a', b'b']), Err(InboundSocksError::Truncated));
    assert_eq!(request_target(&BoundAddress::Name, &[1, 0xFF, 0, 80]), Err(InboundSocksError::InvalidName));
}
