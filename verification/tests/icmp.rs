use rust_ping::icmp::{
    build_echo_reply, build_echo_request, checksum, packet_size, parse_echo_reply,
    parse_echo_request, ICMP_HEADER_LEN, PAYLOAD_SIZE,
};

#[test]
fn checksum_of_completed_packet_is_zero() {
    let packet = build_echo_request(0x1234, 7);
    assert_eq!(checksum(&packet), 0);
}

#[test]
fn parse_bare_icmp_reply() {
    let payload: Vec<u8> = (0..PAYLOAD_SIZE).map(|index| index as u8).collect();
    let packet = build_echo_reply(0x1111, 3, &payload);

    let reply = parse_echo_reply(&packet).expect("reply should parse");
    assert_eq!(reply.identifier, 0x1111);
    assert_eq!(reply.sequence, 3);
}

#[test]
fn parse_ipv4_wrapped_reply() {
    let payload: Vec<u8> = (0..PAYLOAD_SIZE).map(|index| index as u8).collect();
    let icmp = build_echo_reply(0x2222, 9, &payload);

    let mut packet = vec![0u8; 20 + icmp.len()];
    packet[0] = 0x45;
    packet[8] = 42;
    packet[20..].copy_from_slice(&icmp);

    let reply = parse_echo_reply(&packet).expect("reply should parse");
    assert_eq!(reply.identifier, 0x2222);
    assert_eq!(reply.sequence, 9);
    assert_eq!(reply.ttl, 42);
}

#[test]
fn parse_bare_icmp_request() {
    let packet = build_echo_request(0xabcd, 5);

    let request = parse_echo_request(&packet).expect("request should parse");
    assert_eq!(request.identifier, 0xabcd);
    assert_eq!(request.sequence, 5);
    assert_eq!(request.payload.len(), PAYLOAD_SIZE);
}

#[test]
fn reply_preserves_payload() {
    let request = build_echo_request(0x3333, 11);
    let parsed = parse_echo_request(&request).expect("request should parse");
    let reply = build_echo_reply(parsed.identifier, parsed.sequence, parsed.payload);
    let parsed_reply = parse_echo_reply(&reply).expect("reply should parse");

    assert_eq!(parsed_reply.identifier, 0x3333);
    assert_eq!(parsed_reply.sequence, 11);
    assert_eq!(reply[ICMP_HEADER_LEN..], request[ICMP_HEADER_LEN..]);
}

#[test]
fn echo_request_has_exact_bytes() {
    let packet = build_echo_request(0x1234, 7);
    assert_eq!(packet.len(), packet_size());
    assert_eq!(packet_size(), 40);
    assert_eq!(&packet[..2], &[8, 0]);
    assert_eq!(&packet[4..8], &[0x12, 0x34, 0x00, 0x07]);
    let payload: Vec<u8> = (0..32u8).collect();
    assert_eq!(&packet[8..], payload.as_slice());
    // Word sum of the request without checksum, folded and complemented.
    let mut sum: u32 = 0x0800 + 0x1234 + 0x0007;
    for pair in payload.chunks(2) {
        sum += ((pair[0] as u32) << 8) | pair[1] as u32;
    }
    while sum > 0xffff {
        sum = (sum & 0xffff) + (sum >> 16);
    }
    let expected = !(sum as u16);
    assert_eq!(u16::from_be_bytes([packet[2], packet[3]]), expected);
}

#[test]
fn checksum_known_values() {
    assert_eq!(checksum(&[]), 0xffff);
    // RFC 1071 example: words 0001 f203 f4f5 f6f7 sum to 0x2ddf0, folded 0xddf2.
    assert_eq!(checksum(&[0x00, 0x01, 0xf2, 0x03, 0xf4, 0xf5, 0xf6, 0xf7]), !0xddf2u16);
    // An odd final byte counts as the high byte of a word.
    assert_eq!(checksum(&[0x12]), !0x1200u16);
    assert_eq!(checksum(&[0xff, 0xff, 0x00, 0x01]), !0x0001u16);
}

#[test]
fn echo_reply_has_exact_bytes() {
    let packet = build_echo_reply(0x0102, 0x0304, &[0xaa, 0xbb, 0xcc]);
    assert_eq!(packet.len(), 11);
    assert_eq!(packet[0], 0);
    assert_eq!(packet[1], 0);
    assert_eq!(&packet[4..], &[0x01, 0x02, 0x03, 0x04, 0xaa, 0xbb, 0xcc]);
    assert_eq!(checksum(&packet), 0);
}

#[test]
fn short_buffers_do_not_parse() {
    assert!(parse_echo_reply(&[]).is_none());
    assert!(parse_echo_reply(&[0, 0, 0, 0, 0, 0, 0]).is_none());
    assert!(parse_echo_request(&[8, 0, 0, 0, 0, 0, 0]).is_none());
}

#[test]
fn wrong_type_does_not_parse() {
    let request = build_echo_request(1, 2);
    assert!(parse_echo_reply(&request).is_none());
    let reply = build_echo_reply(1, 2, &[]);
    assert!(parse_echo_request(&reply).is_none());
    let reply = parse_echo_reply(&reply).expect("reply should parse");
    assert_eq!(reply.bytes, 8);
    assert_eq!(reply.ttl, 64);
}

#[test]
fn ipv4_header_with_options_is_skipped() {
    let icmp = build_echo_request(0x0a0b, 0x0c0d);
    let mut packet = vec![0u8; 24];
    packet[0] = 0x46;
    packet[8] = 7;
    packet.extend_from_slice(&icmp);
    let request = parse_echo_request(&packet).expect("request should parse");
    assert_eq!(request.ttl, 7);
    assert_eq!(request.bytes, icmp.len());
    assert_eq!(request.identifier, 0x0a0b);
    assert_eq!(request.sequence, 0x0c0d);
    assert_eq!(request.payload, &icmp[8..]);
}

#[test]
fn malformed_ipv4_header_falls_back_to_bare_message() {
    // IHL of 4 words is shorter than an IPv4 header: the buffer is read as a
    // bare ICMP message whose type is 0x44.
    let mut packet = vec![0u8; 28];
    packet[0] = 0x44;
    assert!(parse_echo_reply(&packet).is_none());
    // Version 4 with IHL 5 but too short for the ICMP header behind it.
    let mut packet = vec![0u8; 27];
    packet[0] = 0x45;
    assert!(parse_echo_reply(&packet).is_none());
    // Not version 4: a bare reply with the default time to live.
    let mut packet = vec![0u8; 20];
    packet[0] = 0x00;
    packet[5] = 9;
    let reply = parse_echo_reply(&packet).expect("reply should parse");
    assert_eq!(reply.ttl, 64);
    assert_eq!(reply.identifier, 9);
    assert_eq!(reply.bytes, 20);
}

#[test]
fn any_buffer_checks_to_zero_after_filling_its_checksum_field() {
    let mut buffer = vec![0x13u8, 0x37, 0, 0, 0xde, 0xad, 0xbe, 0xef, 0x01];
    let c = checksum(&buffer);
    buffer[2..4].copy_from_slice(&c.to_be_bytes());
    assert_eq!(checksum(&buffer), 0);
}

#[test]
fn no_buffer_is_both_request_and_reply() {
    let request = build_echo_request(4, 5);
    let reply = build_echo_reply(4, 5, &[7; 10]);
    for buffer in [&request[..], &reply[..]] {
        assert!(!(parse_echo_request(buffer).is_some() && parse_echo_reply(buffer).is_some()));
    }
    assert!(parse_echo_request(&reply).is_none());
}
