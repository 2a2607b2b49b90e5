use titan::dns::{
    build_query, nameserver_texts, parse_nameserver, parse_response, skip_name, DnsError, DnsResolver, IpAddress,
    RecordType, ResolvePlan, ResolverError, SocketAddress,
};

const EXAMPLE_RESPONSE: [u8; 45] = [
    0x12, 0x34, 0x81, 0x80, 0x00, 0x01, 0x00, 0x01, 0x00, 0x00, 0x00, 0x00, 0x07, b'e', b'x', b'a', b'm', b'p', b'l',
    b'e', 0x03, b'c', b'o', b'm', 0x00, 0x00, 0x01, 0x00, 0x01, 0xC0, 0x0C, 0x00, 0x01, 0x00, 0x01, 0x00, 0x00, 0x00,
    0x3C, 0x00, 0x04, 93, 184, 216, 34,
];

#[test]
fn parses_nameserver_without_port() {
    let addr = parse_nameserver(None, Some(IpAddress::V4(1, 1, 1, 1))).unwrap();
    assert_eq!(addr, SocketAddress { ip: IpAddress::V4(1, 1, 1, 1), port: 53 });
}

#[test]
fn parses_a_record_response() {
    let ips = parse_response(&EXAMPLE_RESPONSE, 0x1234, &RecordType::A).unwrap();
    assert_eq!(ips, vec![IpAddress::V4(93, 184, 216, 34)]);
}

#[test]
fn resolver_accepts_valid_nameserver_config() {
    let texts = nameserver_texts(&vec!["1.1.1.1".to_string()]);
    assert_eq!(texts, vec!["1.1.1.1".to_string()]);
    let resolver = DnsResolver::from_parsed(vec![(None, Some(IpAddress::V4(1, 1, 1, 1)))]).unwrap();
    assert_eq!(resolver.nameservers, vec![SocketAddress { ip: IpAddress::V4(1, 1, 1, 1), port: 53 }]);
    assert_eq!(resolver.next_id, 1);
}

#[test]
fn nameserver_forms() {
    let sa = SocketAddress { ip: IpAddress::V4(9, 9, 9, 9), port: 5353 };
    assert_eq!(
        parse_nameserver(Some(SocketAddress { ip: IpAddress::V4(9, 9, 9, 9), port: 5353 }), None),
        Ok(sa)
    );
    assert_eq!(parse_nameserver(None, None), Err(ResolverError::InvalidNameserver));
    assert_eq!(nameserver_texts(&vec![]), vec!["8.8.8.8".to_string(), "8.8.4.4".to_string()]);
}

#[test]
fn query_ids_count_up_and_wrap() {
    let mut r = DnsResolver::new(vec![]);
    assert_eq!(r.take_query_id(), 1);
    assert_eq!(r.take_query_id(), 2);
    r.next_id = u16::MAX;
    assert_eq!(r.take_query_id(), u16::MAX);
    assert_eq!(r.take_query_id(), 0);
}

#[test]
fn builds_a_query() {
    let q = build_query("example.com.", &RecordType::A, 0x1234).unwrap();
    let mut expected = vec![0x12, 0x34, 1, 0, 0, 1, 0, 0, 0, 0, 0, 0];
    expected.extend_from_slice(&[7, b'e', b'x', b'a', b'm', b'p', b'l', b'e', 3, b'c', b'o', b'm', 0]);
    expected.extend_from_slice(&[0, 1, 0, 1]);
    assert_eq!(q, expected);
    let q6 = build_query("a.b", &RecordType::Aaaa, 1).unwrap();
    assert_eq!(&q6[q6.len() - 4..], &[0, 28, 0, 1]);
}

#[test]
fn query_name_is_skipped_back() {
    let q = build_query("www.example.com", &RecordType::A, 7).unwrap();
    let mut cursor = 12usize;
    assert_eq!(skip_name(&q, &mut cursor), Ok(()));
    assert_eq!(cursor, q.len() - 4);
}

#[test]
fn refuses_bad_labels() {
    assert_eq!(build_query("a..b", &RecordType::A, 1), Err(DnsError::InvalidLabel));
    assert_eq!(build_query("", &RecordType::A, 1), Err(DnsError::InvalidLabel));
    let long = format!("{}.com", "x".repeat(64));
    assert_eq!(build_query(&long, &RecordType::A, 1), Err(DnsError::InvalidLabel));
}

#[test]
fn response_errors() {
    assert_eq!(parse_response(&EXAMPLE_RESPONSE[..11], 0x1234, &RecordType::A), Err(DnsError::ShortResponse));
    assert_eq!(parse_response(&EXAMPLE_RESPONSE, 0x4321, &RecordType::A), Err(DnsError::MismatchedId));
    let mut query = EXAMPLE_RESPONSE;
    query[2] = 0x01;
    assert_eq!(parse_response(&query, 0x1234, &RecordType::A), Err(DnsError::NotAResponse));
    let mut failed = EXAMPLE_RESPONSE;
    failed[3] = 0x83;
    assert_eq!(parse_response(&failed, 0x1234, &RecordType::A), Err(DnsError::ServerError(3)));
    assert_eq!(parse_response(&EXAMPLE_RESPONSE[..27], 0x1234, &RecordType::A), Err(DnsError::TruncatedQuestion));
    assert_eq!(parse_response(&EXAMPLE_RESPONSE[..35], 0x1234, &RecordType::A), Err(DnsError::TruncatedAnswer));
    assert_eq!(parse_response(&EXAMPLE_RESPONSE[..43], 0x1234, &RecordType::A), Err(DnsError::TruncatedAnswerData));
    assert_eq!(parse_response(&EXAMPLE_RESPONSE[..20], 0x1234, &RecordType::A), Err(DnsError::TruncatedName));
    assert_eq!(parse_response(&EXAMPLE_RESPONSE, 0x1234, &RecordType::Aaaa), Ok(vec![]));
}

#[test]
fn pointer_loops_are_refused() {
    let mut msg = vec![0u8; 12];
    msg.extend_from_slice(&[0xC0, 12]);
    let mut cursor = 12usize;
    assert_eq!(skip_name(&msg, &mut cursor), Err(DnsError::TooManyJumps));
    let mut cut = vec![0u8; 12];
    cut.push(0xC0);
    let mut cursor = 12usize;
    assert_eq!(skip_name(&cut, &mut cursor), Err(DnsError::TruncatedPointer));
}

#[test]
fn resolve_plan_tries_servers_then_types() {
    let mut plan = ResolvePlan::new();
    assert!(matches!(plan.next_query(2), Some((RecordType::A, 0))));
    plan.record_answer(2, None);
    assert!(matches!(plan.next_query(2), Some((RecordType::A, 1))));
    plan.record_answer(2, Some(vec![IpAddress::V4(1, 2, 3, 4)]));
    assert!(matches!(plan.next_query(2), Some((RecordType::Aaaa, 0))));
    plan.record_answer(2, Some(vec![]));
    plan.record_answer(2, None);
    assert!(plan.next_query(2).is_none());
    assert_eq!(plan.finish(), Ok(vec![IpAddress::V4(1, 2, 3, 4)]));
    assert_eq!(ResolvePlan::new().finish(), Err(ResolverError::ResolutionFailed));
}

#[test]
fn resolver_refuses_a_bad_nameserver() {
    let entries = vec![
        (Some(SocketAddress { ip: IpAddress::V4(9, 9, 9, 9), port: 5353 }), None),
        (None, None),
        (None, Some(IpAddress::V4(1, 1, 1, 1))),
    ];
    assert_eq!(DnsResolver::from_parsed(entries).err(), Some(ResolverError::InvalidNameserver));
    let ok = DnsResolver::from_parsed(vec![
        (Some(SocketAddress { ip: IpAddress::V4(9, 9, 9, 9), port: 5353 }), None),
        (None, Some(IpAddress::V4(8, 8, 4, 4))),
    ])
    .unwrap();
    assert_eq!(ok.nameservers[0].port, 5353);
    assert_eq!(ok.nameservers[1], SocketAddress { ip: IpAddress::V4(8, 8, 4, 4), port: 53 });
}

#[test]
fn trailing_dot_does_not_change_the_query() {
    assert_eq!(build_query("example.com.", &RecordType::A, 9), build_query("example.com", &RecordType::A, 9));
}

#[test]
fn resolve_one_takes_the_first_address() {
    let mut plan = ResolvePlan::new();
    plan.record_answer(1, Some(vec![IpAddress::V4(9, 9, 9, 9), IpAddress::V4(1, 1, 1, 1)]));
    plan.record_answer(1, Some(vec![IpAddress::V6([0, 0, 0, 0, 0, 0, 0, 0, 0, 0, 0, 0, 0, 0, 0, 1])]));
    assert_eq!(plan.finish_one(), Ok(IpAddress::V4(9, 9, 9, 9)));
    assert_eq!(ResolvePlan::new().finish_one(), Err(ResolverError::ResolutionFailed));
}
