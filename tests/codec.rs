use dns::{
    encode_domain_name, extract_query_id_and_domain, generate_request, parse_answers, parse_query,
    Answer, Collate, DnsError, DnsParser, Flags, Header, Question, RecordType, DEFAULT_REQUEST_ID,
};

fn header_bytes(id: u16, qd: u16, an: u16) -> Vec<u8> {
    let h = Header {
        request_id: id,
        flags: Flags::from(0x8180_u16),
        question_count: qd,
        answer_count: an,
        ..Default::default()
    };
    let b: [u8; 12] = h.into();
    b.to_vec()
}

fn a_record(name: &[u8], ttl: u32, ip: [u8; 4]) -> Vec<u8> {
    let mut v = name.to_vec();
    v.extend_from_slice(&[0, 1, 0, 1]);
    v.extend_from_slice(&ttl.to_be_bytes());
    v.extend_from_slice(&[0, 4]);
    v.extend_from_slice(&ip);
    v
}

#[test]
fn flags_round_trip_every_word() {
    for x in 0..=u16::MAX {
        let f = Flags::from(x);
        let back: u16 = f.into();
        assert_eq!(back, x);
    }
}

#[test]
fn flags_fields_from_word() {
    let f = Flags::from(0b1_0101_1_0_1_1_010_0011_u16);
    assert!(!f.query);
    assert_eq!(f.opcode, 0b0101);
    assert!(f.authoritative_answer);
    assert!(!f.truncated);
    assert!(f.recursion_desired);
    assert!(f.recursion_available);
    assert_eq!(f.reserved, 0b010);
    assert_eq!(f.response_code, 0b0011);
}

#[test]
fn header_round_trip_bytes() {
    let raw = [0xAB, 0xCD, 0x81, 0x80, 0x00, 0x01, 0x00, 0x02, 0x00, 0x03, 0xFF, 0xFE];
    let mut parser = DnsParser::new(&raw);
    let h = parser.parse_header().unwrap();
    assert_eq!(h.request_id, 0xABCD);
    assert_eq!(h.question_count, 1);
    assert_eq!(h.answer_count, 2);
    assert_eq!(h.authority_count, 3);
    assert_eq!(h.additional_count, 0xFFFE);
    assert_eq!(parser.position(), 12);
    let back: [u8; 12] = h.into();
    assert_eq!(back, raw);
}

#[test]
fn header_too_short_is_malformed() {
    let raw = [0u8; 11];
    let mut parser = DnsParser::new(&raw);
    assert_eq!(parser.parse_header(), Err(DnsError::MalformedPacket));
}

#[test]
fn domain_name_decodes_from_labels() {
    let bytes = encode_domain_name("www.example.com");
    let mut parser = DnsParser::new(&bytes);
    assert_eq!(parser.parse_domain_name().unwrap(), "www.example.com");
    assert_eq!(parser.position(), bytes.len());
}

#[test]
fn encode_skips_empty_segments() {
    assert_eq!(encode_domain_name("a..bc."), vec![1, b'a', 2, b'b', b'c', 0]);
    assert_eq!(encode_domain_name(""), vec![0]);
}

#[test]
fn compressed_name_matches_inline_name() {
    let mut buf = vec![0u8; 12];
    buf.extend_from_slice(&encode_domain_name("example.com")); // offsets 12..25
    buf.extend_from_slice(&[0xC0, 12]); // offset 25
    buf.extend_from_slice(&[3, b'w', b'w', b'w', 0xC0, 12]); // offset 27
    buf.extend_from_slice(&[9, 9, 9]);

    let mut inline = DnsParser::new(&buf);
    inline.advance(12).unwrap();
    let expected = inline.parse_domain_name().unwrap();
    assert_eq!(expected, "example.com");

    let mut parser = DnsParser::new(&buf);
    parser.advance(25).unwrap();
    assert_eq!(parser.parse_domain_name().unwrap(), expected);
    assert_eq!(parser.position(), 27);
    assert_eq!(parser.parse_domain_name().unwrap(), "www.example.com");
    assert_eq!(parser.position(), 33);
}

#[test]
fn pointer_cycle_is_malformed() {
    let mut buf = vec![0u8; 12];
    buf.extend_from_slice(&[0xC0, 14, 0xC0, 12]);
    let mut parser = DnsParser::new(&buf);
    parser.advance(12).unwrap();
    assert_eq!(parser.parse_domain_name(), Err(DnsError::MalformedPacket));

    let self_loop = [0xC0u8, 0];
    let mut parser = DnsParser::new(&self_loop);
    assert_eq!(parser.parse_domain_name(), Err(DnsError::MalformedPacket));
}

#[test]
fn bad_names_are_malformed() {
    // pointer past the end of the buffer
    let mut parser = DnsParser::new(&[0xC0, 0x40]);
    assert_eq!(parser.parse_domain_name(), Err(DnsError::MalformedPacket));
    // reserved label kind
    let mut parser = DnsParser::new(&[0x41, b'a', 0]);
    assert_eq!(parser.parse_domain_name(), Err(DnsError::MalformedPacket));
    // label running off the end
    let mut parser = DnsParser::new(&[5, b'a', b'b']);
    assert_eq!(parser.parse_domain_name(), Err(DnsError::MalformedPacket));
    // no terminating zero
    let mut parser = DnsParser::new(&[1, b'a']);
    assert_eq!(parser.parse_domain_name(), Err(DnsError::MalformedPacket));
}

#[test]
fn a_record_dispatch() {
    let buf = a_record(&encode_domain_name("example.com"), 300, [93, 184, 216, 34]);
    let mut parser = DnsParser::new(&buf);
    match parser.parse_answer().unwrap() {
        Answer::A { meta, ipv4 } => {
            assert_eq!(ipv4, [93, 184, 216, 34]);
            assert_eq!(meta.ttl, 300);
            assert_eq!(meta.name, "example.com");
            assert_eq!(meta.class, 1);
            assert_eq!(meta.len, 4);
            assert_eq!(meta.record_type, RecordType::A);
        }
        other => panic!("unexpected record {:?}", other),
    }
    assert_eq!(parser.position(), buf.len());
}

#[test]
fn cname_record_with_pointer() {
    let mut buf = vec![0u8; 12];
    buf.extend_from_slice(&encode_domain_name("example.com")); // 12..25
    let record_start = buf.len();
    buf.extend_from_slice(&[3, b'w', b'w', b'w', 0xC0, 12]);
    buf.extend_from_slice(&[0, 5, 0, 1, 0, 0, 0x0E, 0x10, 0, 6]);
    buf.extend_from_slice(&[3, b'c', b'd', b'n', 0xC0, 12]);
    let next = buf.len();
    buf.extend_from_slice(&[0xEE]);

    let mut parser = DnsParser::new(&buf);
    parser.advance(record_start).unwrap();
    match parser.parse_answer().unwrap() {
        Answer::CNAME { meta, cname } => {
            assert_eq!(cname, "cdn.example.com");
            assert_eq!(meta.name, "www.example.com");
            assert_eq!(meta.ttl, 3600);
            assert_eq!(meta.record_type, RecordType::CNAME);
        }
        other => panic!("unexpected record {:?}", other),
    }
    assert_eq!(parser.position(), next);
}

#[test]
fn other_record_keeps_raw_payload() {
    let mut buf = encode_domain_name("example.com");
    buf.extend_from_slice(&[0, 15, 0, 1, 0, 0, 0, 60, 0, 3, 7, 8, 9, 0xEE]);
    let mut parser = DnsParser::new(&buf);
    match parser.parse_answer().unwrap() {
        Answer::Other { meta, data } => {
            assert_eq!(meta.record_type, RecordType::MX);
            assert_eq!(data, vec![7, 8, 9]);
        }
        other => panic!("unexpected record {:?}", other),
    }
    assert_eq!(parser.position(), buf.len() - 1);
}

#[test]
fn record_payload_past_end_is_malformed() {
    let mut buf = encode_domain_name("example.com");
    buf.extend_from_slice(&[0, 1, 0, 1, 0, 0, 0, 60, 0, 4, 1, 2, 3]);
    let mut parser = DnsParser::new(&buf);
    assert_eq!(parser.parse_answer(), Err(DnsError::MalformedPacket));
}

#[test]
fn record_types_from_codes() {
    assert_eq!(RecordType::from(1), RecordType::A);
    assert_eq!(RecordType::from(5), RecordType::CNAME);
    assert_eq!(RecordType::from(16), RecordType::TXT);
    assert_eq!(RecordType::from(252), RecordType::AXFR);
    assert_eq!(RecordType::from(256), RecordType::URI);
    assert_eq!(RecordType::from(17), RecordType::Other(17));
    assert_eq!(RecordType::from(0xFFFF), RecordType::Other(0xFFFF));
}

fn example_message() -> Vec<u8> {
    let mut buf = header_bytes(0x1234, 1, 1);
    buf.extend_from_slice(&encode_domain_name("example.com"));
    buf.extend_from_slice(&[0, 1, 0, 1]);
    buf.extend_from_slice(&a_record(&[0xC0, 12], 3600, [93, 184, 216, 34]));
    buf
}

#[test]
fn parse_message_end_to_end() {
    let buf = example_message();
    let mut parser = DnsParser::new(&buf);
    let (header, questions, answers) = parser.parse_message().unwrap();
    assert_eq!(header.request_id, 0x1234);
    assert_eq!(
        (header.question_count, header.answer_count, header.authority_count, header.additional_count),
        (1, 1, 0, 0)
    );
    assert_eq!(
        questions,
        vec![Question { domain_name: "example.com".to_string(), record_type: 1, class: 1 }]
    );
    assert_eq!(answers.len(), 1);
    match &answers[0] {
        Answer::A { meta, ipv4 } => {
            assert_eq!(meta.name, "example.com");
            assert_eq!(meta.ttl, 3600);
            assert_eq!(*ipv4, [93, 184, 216, 34]);
        }
        other => panic!("unexpected record {:?}", other),
    }
    assert_eq!(parser.position(), buf.len());
}

#[test]
fn declared_answers_missing_is_malformed() {
    let mut buf = header_bytes(7, 1, 3);
    buf.extend_from_slice(&encode_domain_name("example.com"));
    buf.extend_from_slice(&[0, 1, 0, 1]);
    buf.extend_from_slice(&a_record(&[0xC0, 12], 60, [1, 2, 3, 4]));
    let parser = DnsParser::new(&buf);
    assert_eq!(parser.parse_answers(), Err(DnsError::MalformedPacket));
    assert_eq!(parse_answers(buf.clone()), Err(DnsError::MalformedPacket));
}

#[test]
fn zero_answers_is_not_an_error() {
    let mut buf = header_bytes(7, 1, 0);
    buf.extend_from_slice(&encode_domain_name("example.com"));
    buf.extend_from_slice(&[0, 1, 0, 1]);
    let (answers, raw) = parse_answers(buf.clone()).unwrap();
    assert!(answers.is_empty());
    assert_eq!(raw, buf);
}

#[test]
fn parse_answers_returns_datagram() {
    let buf = example_message();
    let (answers, raw) = parse_answers(buf.clone()).unwrap();
    assert_eq!(answers.len(), 1);
    assert_eq!(raw, buf);
    let short = buf[..buf.len() - 1].to_vec();
    assert_eq!(parse_answers(short), Err(DnsError::MalformedPacket));
}

#[test]
fn request_default_and_given_id() {
    let r = generate_request("example.com", None);
    let mut expected = vec![0x10, 0x01, 0x01, 0x00, 0x00, 0x01, 0, 0, 0, 0, 0, 0];
    expected.extend_from_slice(&[7, b'e', b'x', b'a', b'm', b'p', b'l', b'e', 3, b'c', b'o', b'm', 0]);
    expected.extend_from_slice(&[0, 1, 0, 1]);
    assert_eq!(r, expected);
    assert_eq!(DEFAULT_REQUEST_ID, 0x1001);

    let r = generate_request("example.com", Some(0xABCD));
    assert_eq!(&r[0..2], &[0xAB, 0xCD]);
    assert_eq!(&r[2..], &expected[2..]);
}

#[test]
fn relay_information_of_request() {
    let req = generate_request("www.example.com", Some(4242));
    let mut buf = [0u8; 512];
    buf[..req.len()].copy_from_slice(&req);
    let expected = Question { domain_name: "www.example.com".to_string(), record_type: 1, class: 1 };
    assert_eq!(extract_query_id_and_domain(buf), Ok((4242, expected.clone())));
    assert_eq!(parse_query(buf), Ok((4242, expected.clone())));

    let mut parser = DnsParser::new(&buf);
    parser.advance(20).unwrap();
    assert_eq!(parser.get_relay_information(), Ok((4242, expected)));
    assert_eq!(parser.position(), req.len());
}

#[test]
fn cursor_bounds_are_checked() {
    let buf = [1u8, 2, 3];
    let mut parser = DnsParser::new(&buf);
    assert_eq!(parser.peek(4), Err(DnsError::MalformedPacket));
    assert_eq!(parser.advance(2).unwrap(), &[1, 2]);
    assert_eq!(parser.advance_n::<2>(), Err(DnsError::MalformedPacket));
    assert_eq!(parser.position(), 2);
    assert_eq!(parser.peek(1).unwrap(), &[3]);
    assert_eq!(parser.position(), 2);
}

#[test]
fn collate_slices_and_arrays() {
    let s: &[u8] = &[0x12, 0x34, 0x56, 0x78];
    assert_eq!(s.collate(), 0x1234_5678);
    assert_eq!([0xFFu8, 0x00].collate(), 0xFF00);
    let empty: &[u8] = &[];
    assert_eq!(empty.collate(), 0);
}
