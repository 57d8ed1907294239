use rust_ping::icmp::{build_echo_request, parse_echo_request};
use rust_ping::session::{Session, SessionEvent};

#[test]
fn session_sends_count_requests_in_order() {
    let mut session = Session::new(3);
    let mut sequences = Vec::new();
    let mut sleeps = Vec::new();
    while let Some((sequence, packet)) = session.next_request(0x0707) {
        assert_eq!(packet, build_echo_request(0x0707, sequence));
        let request = parse_echo_request(&packet).expect("request should parse");
        assert_eq!(request.sequence, sequence);
        sequences.push(sequence);
        session.on_event(SessionEvent::TimedOut);
        sleeps.push(session.sleeps_before_next());
    }
    assert_eq!(sequences, vec![0, 1, 2]);
    assert_eq!(sleeps, vec![true, true, false]);
    assert_eq!(session.stats().sent, 3);
    assert_eq!(session.stats().received, 0);
    assert!(session.next_request(0x0707).is_none());
    assert_eq!(session.stats().sent, 3);
}

#[test]
fn session_records_replies_and_timeouts() {
    let mut session = Session::new(4);
    let outcomes = [
        SessionEvent::Replied { rtt_nanos: 4_000 },
        SessionEvent::TimedOut,
        SessionEvent::Replied { rtt_nanos: 1_000 },
        SessionEvent::Replied { rtt_nanos: 7_000 },
    ];
    for outcome in outcomes {
        session.next_request(1).expect("a request is due");
        session.on_event(outcome);
    }
    let stats = session.stats();
    assert_eq!(stats.sent, 4);
    assert_eq!(stats.received, 3);
    assert_eq!(stats.min_rtt(), Some(1_000));
    assert_eq!(stats.max_rtt(), Some(7_000));
    assert_eq!(stats.total_rtt(), 12_000);
}

#[test]
fn outcome_without_waiting_request_is_ignored() {
    let mut session = Session::new(1);
    session.on_event(SessionEvent::Replied { rtt_nanos: 5 });
    assert_eq!(session.stats().received, 0);
    session.next_request(9).expect("a request is due");
    session.on_event(SessionEvent::Replied { rtt_nanos: 5 });
    session.on_event(SessionEvent::Replied { rtt_nanos: 6 });
    assert_eq!(session.stats().received, 1);
    assert_eq!(session.stats().total_rtt(), 5);
}

#[test]
fn empty_session_sends_nothing() {
    let mut session = Session::new(0);
    assert!(!session.sleeps_before_next());
    assert!(session.next_request(1).is_none());
    assert_eq!(session.stats().sent, 0);
}
