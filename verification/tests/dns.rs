//! Packets: reading queries and building responses.

use nanodns::addr::Ipv4Addr;
use nanodns::dns::{
    build_a_response, build_error_response, encode_name, is_valid_label, parse_header, parse_name,
    parse_query, DnsError, CLASS_IN, RCODE_NXDOMAIN, RCODE_SERVFAIL, TYPE_A,
};
use nanodns::server::{handle_request, runs_inline, Rejection};

/// A raw query with the id 0x1234 and RD set.
fn make_query(name: &str, qtype: u16) -> Vec<u8> {
    let mut q = Vec::new();
    q.extend_from_slice(&0x1234u16.to_be_bytes());
    q.extend_from_slice(&0x0100u16.to_be_bytes());
    q.extend_from_slice(&1u16.to_be_bytes());
    q.extend_from_slice(&0u16.to_be_bytes());
    q.extend_from_slice(&0u16.to_be_bytes());
    q.extend_from_slice(&0u16.to_be_bytes());
    encode_name(name, &mut q);
    q.extend_from_slice(&qtype.to_be_bytes());
    q.extend_from_slice(&CLASS_IN.to_be_bytes());
    q
}

#[test]
fn parse_domain_name() {
    let mut buf = Vec::new();
    encode_name("Router.LAN", &mut buf);
    let (name, pos) = parse_name(&buf, 0).unwrap();
    assert_eq!(name, "router.lan");
    assert_eq!(pos, buf.len());
}

#[test]
fn parse_full_query() {
    let raw = make_query("admin.lan", TYPE_A);
    let q = parse_query(&raw).unwrap();
    assert_eq!(q.header.id, 0x1234);
    assert!(q.header.is_query());
    assert_eq!(q.question.name, "admin.lan");
    assert_eq!(q.question.qtype, TYPE_A);
    assert_eq!(q.question.qclass, CLASS_IN);
}

#[test]
fn reject_short_packet() {
    assert!(matches!(parse_header(&[0, 1, 2]), Err(DnsError::TooShort)));
}

#[test]
fn reject_compression_in_question() {
    let buf = [0xC0u8, 0x0C];
    assert!(matches!(parse_name(&buf, 0), Err(DnsError::BadName)));
}

#[test]
fn reject_too_long_label() {
    let mut buf = vec![64u8];
    buf.extend(std::iter::repeat(b'a').take(64));
    buf.push(0);
    assert!(matches!(parse_name(&buf, 0), Err(DnsError::BadName)));
}

#[test]
fn reject_invalid_label_chars() {
    let mut buf = Vec::new();
    buf.push(5u8);
    buf.extend_from_slice(b"ab cd");
    buf.push(0);
    assert!(matches!(parse_name(&buf, 0), Err(DnsError::BadName)));
}

#[test]
fn build_a_response_layout_and_aa() {
    let raw = make_query("router.lan", TYPE_A);
    let q = parse_query(&raw).unwrap();
    let resp = build_a_response(&q, Ipv4Addr::new(192, 168, 4, 1), 60, true);

    assert_eq!(u16::from_be_bytes([resp[0], resp[1]]), 0x1234);
    let flags = u16::from_be_bytes([resp[2], resp[3]]);
    assert_eq!(flags & 0x8000, 0x8000);
    assert_eq!(flags & 0x0400, 0x0400);
    assert_eq!(u16::from_be_bytes([resp[6], resp[7]]), 1);
    let n = resp.len();
    assert_eq!(&resp[n - 4..], &[192, 168, 4, 1]);
}

#[test]
fn non_authoritative_has_no_aa() {
    let raw = make_query("google.com", TYPE_A);
    let q = parse_query(&raw).unwrap();
    let resp = build_a_response(&q, Ipv4Addr::new(1, 2, 3, 4), 60, false);
    let flags = u16::from_be_bytes([resp[2], resp[3]]);
    assert_eq!(flags & 0x0400, 0);
}

#[test]
fn build_error_has_no_answers() {
    let raw = make_query("nope.lan", TYPE_A);
    let q = parse_query(&raw).unwrap();
    let resp = build_error_response(&q, RCODE_NXDOMAIN, true);
    assert_eq!(u16::from_be_bytes([resp[6], resp[7]]), 0);
    let flags = u16::from_be_bytes([resp[2], resp[3]]);
    assert_eq!((flags & 0x000F) as u8, RCODE_NXDOMAIN);
    assert_eq!(flags & 0x0400, 0x0400);
}

#[test]
fn a_response_octet_by_octet() {
    let q = parse_query(&make_query("a.lan", TYPE_A)).unwrap();
    let resp = build_a_response(&q, Ipv4Addr::new(10, 20, 30, 40), 0x01020304, true);
    let expected: Vec<u8> = vec![
        0x12, 0x34, 0x85, 0x80, 0, 1, 0, 1, 0, 0, 0, 0, // header
        1, b'a', 3, b'l', b'a', b'n', 0, 0, 1, 0, 1, // question
        0xC0, 0x0C, 0, 1, 0, 1, 1, 2, 3, 4, 0, 4, 10, 20, 30, 40, // answer
    ];
    assert_eq!(resp, expected);
}

#[test]
fn error_response_octet_by_octet() {
    let q = parse_query(&make_query("a.lan", 28)).unwrap();
    let resp = build_error_response(&q, RCODE_SERVFAIL, false);
    let expected: Vec<u8> = vec![
        0x12, 0x34, 0x81, 0x82, 0, 1, 0, 0, 0, 0, 0, 0, // header
        1, b'a', 3, b'l', b'a', b'n', 0, 0, 28, 0, 1, // question
    ];
    assert_eq!(resp, expected);
}

#[test]
fn header_fields_are_read_in_order() {
    let raw: Vec<u8> = vec![0xAB, 0xCD, 0x29, 0x00, 0, 1, 0, 2, 0, 3, 0, 4];
    let h = parse_header(&raw).unwrap();
    assert_eq!(h.id, 0xABCD);
    assert_eq!(h.flags, 0x2900);
    assert_eq!((h.qdcount, h.ancount, h.nscount, h.arcount), (1, 2, 3, 4));
    assert!(h.is_query());
    assert_eq!(h.opcode(), 5);
}

#[test]
fn written_names_are_read_back() {
    let mut buf = vec![7u8, 7, 7];
    encode_name("Mixed-Case.Sub_1.Example", &mut buf);
    let end = buf.len();
    buf.push(9);
    let (name, pos) = parse_name(&buf, 3).unwrap();
    assert_eq!(name, "mixed-case.sub_1.example");
    assert_eq!(pos, end);
}

#[test]
fn the_root_has_an_empty_name() {
    let (name, pos) = parse_name(&[0u8], 0).unwrap();
    assert_eq!(name, "");
    assert_eq!(pos, 1);
}

#[test]
fn a_name_may_not_run_over_the_end() {
    assert!(parse_name(&[3, b'a', b'b'], 0).is_err());
    assert!(parse_name(&[1, b'a'], 0).is_err());
    assert!(parse_name(&[], 0).is_err());
    assert!(parse_name(&[0], 5).is_err());
}

#[test]
fn the_longest_label_has_63_octets() {
    let mut buf = vec![63u8];
    buf.extend(std::iter::repeat(b'a').take(63));
    buf.push(0);
    assert_eq!(parse_name(&buf, 0).unwrap().0.len(), 63);
}

#[test]
fn a_name_of_too_many_labels_is_refused() {
    let mut buf = Vec::new();
    for _ in 0..130 {
        buf.extend_from_slice(&[1, b'a']);
    }
    buf.push(0);
    assert!(matches!(parse_name(&buf, 0), Err(DnsError::BadName)));
}

#[test]
fn hyphens_stand_only_inside_labels() {
    assert!(is_valid_label("a-b"));
    assert!(is_valid_label("_dmarc"));
    assert!(!is_valid_label("-a"));
    assert!(!is_valid_label("a-"));
    assert!(!is_valid_label(""));
    assert!(!is_valid_label("a.b"));
}

#[test]
fn the_first_question_is_read() {
    let mut raw = make_query("a.lan", TYPE_A);
    encode_name("b.lan", &mut raw);
    raw.extend_from_slice(&[0, 28, 0, 1]);
    raw[5] = 2;
    let q = parse_query(&raw).unwrap();
    assert_eq!(q.question.name, "a.lan");
    assert_eq!(q.question.qtype, TYPE_A);
}

#[test]
fn a_packet_without_a_question_is_refused() {
    let mut raw = make_query("a.lan", TYPE_A);
    raw[5] = 0;
    assert!(matches!(parse_query(&raw), Err(DnsError::NoQuestion)));
}

#[test]
fn a_cut_question_ends_too_early() {
    let raw = make_query("a.lan", TYPE_A);
    for n in 12..raw.len() {
        assert!(matches!(parse_query(&raw[..n]), Err(DnsError::UnexpectedEof)));
    }
    assert!(matches!(parse_query(&raw[..11]), Err(DnsError::TooShort)));
}

#[test]
fn every_error_has_its_own_message() {
    assert_eq!(DnsError::TooShort.message(), "пакет короче заголовка DNS");
    assert_eq!(DnsError::UnexpectedEof.message(), "неожиданный конец пакета");
    assert_eq!(DnsError::BadName.message(), "некорректное доменное имя");
    assert_eq!(DnsError::NoQuestion.message(), "в пакете нет question");
}

#[test]
fn standard_queries_are_admitted() {
    let q = handle_request(&make_query("a.lan", TYPE_A));
    assert_eq!(q.ok().unwrap().question.name, "a.lan");
}

#[test]
fn other_packets_are_rejected() {
    assert_eq!(
        handle_request(&[1, 2, 3]).err(),
        Some(Rejection::Malformed(DnsError::TooShort))
    );
    let mut response = make_query("a.lan", TYPE_A);
    response[2] |= 0x80;
    assert_eq!(handle_request(&response).err(), Some(Rejection::NotAQuery));
    let mut inverse = make_query("a.lan", TYPE_A);
    inverse[2] |= 0x08;
    assert_eq!(handle_request(&inverse).err(), Some(Rejection::NotAQuery));
}

#[test]
fn own_responses_are_not_admitted() {
    let q = handle_request(&make_query("a.lan", TYPE_A)).ok().unwrap();
    let a = build_a_response(&q, Ipv4Addr::new(1, 2, 3, 4), 60, true);
    assert_eq!(handle_request(&a).err(), Some(Rejection::NotAQuery));
    let e = build_error_response(&q, RCODE_NXDOMAIN, true);
    assert_eq!(handle_request(&e).err(), Some(Rejection::NotAQuery));
}

#[test]
fn responses_echo_the_question() {
    let q = parse_query(&make_query("x.y.lan", 28)).unwrap();
    let back = parse_query(&build_error_response(&q, RCODE_NXDOMAIN, true)).unwrap();
    assert_eq!(back.header.id, 0x1234);
    assert!(!back.header.is_query());
    assert_eq!(back.question.name, "x.y.lan");
    assert_eq!(back.question.qtype, 28);
}

#[test]
fn requests_over_the_limit_run_inline() {
    assert!(!runs_inline(0, 2));
    assert!(!runs_inline(1, 2));
    assert!(runs_inline(2, 2));
    assert!(runs_inline(3, 2));
    assert!(!runs_inline(0, 0));
    assert!(runs_inline(1, 0));
}
