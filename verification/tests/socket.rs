use rust_ping::icmp::{build_echo_reply, build_echo_request, parse_echo_reply, ICMP_HEADER_LEN};
use rust_ping::socket::{is_timeout, reply_for, reply_matching, IoErrorKind};

#[test]
fn timeouts_are_would_block_and_timed_out() {
    assert!(is_timeout(IoErrorKind::WouldBlock));
    assert!(is_timeout(IoErrorKind::TimedOut));
    assert!(!is_timeout(IoErrorKind::PermissionDenied));
    assert!(!is_timeout(IoErrorKind::Other));
}

#[test]
fn only_the_awaited_reply_matches() {
    let reply = build_echo_reply(0x4242, 3, &[1, 2, 3]);
    let matched = reply_matching(&reply, 0x4242, 3).expect("reply should match");
    assert_eq!(matched.bytes, 11);
    assert!(reply_matching(&reply, 0x4242, 4).is_none());
    assert!(reply_matching(&reply, 0x4243, 3).is_none());
    let request = build_echo_request(0x4242, 3);
    assert!(reply_matching(&request, 0x4242, 3).is_none());
}

#[test]
fn responder_answers_ipv4_echo_requests_only() {
    let request = build_echo_request(0x5151, 12);
    let (parsed, reply) = reply_for(&request, true).expect("request should be answered");
    assert_eq!(parsed.sequence, 12);
    assert_eq!(reply, build_echo_reply(0x5151, 12, &request[ICMP_HEADER_LEN..]));
    let answer = parse_echo_reply(&reply).expect("reply should parse");
    assert_eq!((answer.identifier, answer.sequence), (0x5151, 12));
    assert!(reply_for(&request, false).is_none());
    assert!(reply_for(&reply, true).is_none());
    assert!(reply_for(&[8, 0, 0], true).is_none());
}
