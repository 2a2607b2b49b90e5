use titan::http::{
    connect_established, http_error_response, is_benign_inbound_error, parse_connect_target, parse_host_header,
    parse_http_proxy_request, rewrite_http_forward_request, HttpInboundError, InboundHttpRequest,
};

#[test]
fn forwards_http_proxy_requests_to_direct_target() {
    let origin = "127.0.0.1:8080";
    let request = format!(
        "GET http://{}/hello?name=titan HTTP/1.1\r\nHost: {}\r\nProxy-Connection: keep-alive\r\nConnection: close\r\n\r\n",
        origin, origin
    );
    match parse_http_proxy_request(request.as_bytes()).unwrap() {
        InboundHttpRequest::Forward { target, initial_data } => {
            assert_eq!(target.host, "127.0.0.1");
            assert_eq!(target.port, 8080);
            let forwarded_text = String::from_utf8_lossy(&initial_data);
            assert!(forwarded_text.starts_with("GET /hello?name=titan HTTP/1.1\r\n"));
            assert!(forwarded_text.contains(&format!("Host: {}\r\n", origin)));
            assert!(!forwarded_text.to_ascii_lowercase().contains("proxy-connection:"));
            assert_eq!(
                forwarded_text,
                "GET /hello?name=titan HTTP/1.1\r\nHost: 127.0.0.1:8080\r\nConnection: close\r\n\r\n"
            );
        },
        InboundHttpRequest::Connect { .. } => panic!("expected a forwarded request"),
    }
}

#[test]
fn returns_bad_gateway_for_rejected_http_proxy_request() {
    let response = http_error_response(502, "Bad Gateway");
    assert!(response.starts_with("HTTP/1.1 502 Bad Gateway\r\n"));
    assert_eq!(response, "HTTP/1.1 502 Bad Gateway\r\nContent-Length: 16\r\nConnection: close\r\n\r\n502 Bad Gateway\n");
    let request = b"GET http://blocked.test/ HTTP/1.1\r\nHost: blocked.test\r\nConnection: close\r\n\r\n";
    match parse_http_proxy_request(request).unwrap() {
        InboundHttpRequest::Forward { target, .. } => {
            assert_eq!(target.host, "blocked.test");
            assert_eq!(target.port, 80);
        },
        InboundHttpRequest::Connect { .. } => panic!("expected a forwarded request"),
    }
}

#[test]
fn connect_requests_name_a_tunnel() {
    match parse_http_proxy_request(b"CONNECT example.com:443 HTTP/1.1\r\nHost: example.com:443\r\n\r\n").unwrap() {
        InboundHttpRequest::Connect { target } => {
            assert_eq!(target.host, "example.com");
            assert_eq!(target.port, 443);
        },
        InboundHttpRequest::Forward { .. } => panic!("expected a tunnel"),
    }
    assert_eq!(connect_established(), b"HTTP/1.1 200 Connection Established\r\n\r\n".to_vec());
}

#[test]
fn origin_form_requests_use_the_host_header() {
    let raw = b"POST /submit HTTP/1.1\r\nhost: api.test:8081\r\nProxy-Authorization: Basic x\r\n\r\nbody";
    match parse_http_proxy_request(raw).unwrap() {
        InboundHttpRequest::Forward { target, initial_data } => {
            assert_eq!(target.host, "api.test");
            assert_eq!(target.port, 8081);
            assert_eq!(
                String::from_utf8(initial_data).unwrap(),
                "POST /submit HTTP/1.1\r\nhost: api.test:8081\r\n\r\nbody"
            );
        },
        InboundHttpRequest::Connect { .. } => panic!("expected a forwarded request"),
    }
}

#[test]
fn absolute_uri_without_host_header_gets_one() {
    let headers = vec!["Accept: */*".to_string()];
    let (target, data) = rewrite_http_forward_request("GET", "http://example.com/a", "HTTP/1.1", &headers, b"").unwrap();
    assert_eq!(target.host, "example.com");
    assert_eq!(target.port, 80);
    assert_eq!(String::from_utf8(data).unwrap(), "GET /a HTTP/1.1\r\nHost: example.com:80\r\nAccept: */*\r\n\r\n");
}

#[test]
fn inbound_request_errors() {
    assert!(matches!(parse_http_proxy_request(b"GET / HTTP/1.1\r\n"), Err(HttpInboundError::InvalidRequest)));
    assert!(matches!(parse_http_proxy_request(b"\r\n\r\n"), Err(HttpInboundError::MissingMethod)));
    assert!(matches!(parse_http_proxy_request(b"GET\r\n\r\n"), Err(HttpInboundError::MissingUri)));
    assert!(matches!(parse_http_proxy_request(b"GET /\r\n\r\n"), Err(HttpInboundError::MissingVersion)));
    assert!(matches!(
        parse_http_proxy_request(b"GET /x HTTP/1.1\r\nAccept: */*\r\n\r\n"),
        Err(HttpInboundError::MissingHostHeader)
    ));
    assert!(matches!(
        rewrite_http_forward_request("GET", "mailto:someone", "HTTP/1.1", &[], b""),
        Err(HttpInboundError::MissingHost)
    ));
    assert!(matches!(parse_connect_target("example.com"), Err(HttpInboundError::MissingPort)));
    assert!(matches!(parse_connect_target("example.com:70000"), Err(HttpInboundError::InvalidPort)));
    assert!(matches!(parse_connect_target("example.com:https"), Err(HttpInboundError::InvalidPort)));
}

#[test]
fn host_header_defaults_to_port_80() {
    let t = parse_host_header("example.org");
    assert_eq!((t.host.as_str(), t.port), ("example.org", 80));
    let t = parse_host_header("example.org:8443");
    assert_eq!((t.host.as_str(), t.port), ("example.org", 8443));
    let t = parse_host_header("example.org:bad");
    assert_eq!((t.host.as_str(), t.port), ("example.org:bad", 80));
}

#[test]
fn benign_errors() {
    assert!(is_benign_inbound_error("Connection reset by peer (os error 104)"));
    assert!(is_benign_inbound_error("unexpected EOF while reading HTTP request"));
    assert!(is_benign_inbound_error("An established connection was aborted (os error 10053)"));
    assert!(!is_benign_inbound_error("invalid HTTP proxy request"));
}

#[test]
fn mixed_port_dispatch() {
    assert_eq!(titan::http::detect_protocol(5), titan::http::InboundProtocol::Socks5);
    assert_eq!(titan::http::detect_protocol(b'G'), titan::http::InboundProtocol::Http);
    assert_eq!(
        titan::http::connect_failure_reply(titan::http::InboundProtocol::Socks5),
        vec![5, 1, 0, 1, 0, 0, 0, 0, 0, 0]
    );
    assert_eq!(
        titan::http::connect_failure_reply(titan::http::InboundProtocol::Http),
        b"HTTP/1.1 502 Bad Gateway\r\nContent-Length: 16\r\nConnection: close\r\n\r\n502 Bad Gateway\n".to_vec()
    );
}
