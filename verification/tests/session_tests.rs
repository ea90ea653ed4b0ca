use drcom::config::Config;
use drcom::protocol::{challenge_packet, keep_alive1_packet, keep_alive_package_builder, logout, mkpkt};
use drcom::session::{challenge_seed, Action, ClientError, Event, Outcome, Phase, Session};

fn test_config() -> Config {
    Config {
        server: "10.100.61.3".to_string(),
        username: "testuser".to_string(),
        password: "testpass123".to_string(),
        host_ip: "192.168.1.100".to_string(),
        mac: "AA:BB:CC:DD:EE:FF".to_string(),
        host_name: "TESTPC".to_string(),
        primary_dns: "10.10.10.10".to_string(),
        dhcp_server: "0.0.0.0".to_string(),
        ..Config::default()
    }
}

const HOST_IP: [u8; 4] = [192, 168, 1, 100];
const KAV: [u8; 2] = [0xdc, 0x02];

fn reply(bytes: &[u8]) -> Event {
    Event::Reply(bytes.to_vec(), true)
}

#[test]
fn full_session_until_logout() {
    let cfg = test_config();
    let mut s = Session::new(cfg.clone());
    assert_eq!(s.step(Event::Begin(0x1234), false, 1000), Action::Exchange(challenge_packet(0x1234)));
    assert_eq!(s.phase, Phase::Challenge);
    assert!(!s.is_logged_in());

    // a timeout resends the challenge
    assert_eq!(s.step(Event::RecvFailed(true), false, 1000), Action::Exchange(challenge_packet(0x1234)));

    let salt = [0x11, 0x22, 0x33, 0x44];
    let login = mkpkt(&salt, b"testuser", b"testpass123", 0xAABBCCDDEEFF, &cfg).unwrap();
    assert_eq!(s.step(reply(&[2, 0, 0, 0, 0x11, 0x22, 0x33, 0x44]), false, 1000), Action::Exchange(login));

    let mut login_reply = vec![4u8; 39];
    for (k, b) in login_reply[23..39].iter_mut().enumerate() {
        *b = k as u8;
    }
    assert_eq!(s.step(reply(&login_reply), false, 1000), Action::Drain);
    assert!(s.is_logged_in());
    let mut package_tail = [0u8; 16];
    for (k, b) in package_tail.iter_mut().enumerate() {
        *b = k as u8;
    }
    assert_eq!(s.package_tail, package_tail);

    let ka1 = keep_alive1_packet(&salt, b"testpass123", &package_tail, 1000);
    assert_eq!(s.step(Event::Drained, false, 1000), Action::Exchange(ka1));
    // not a keep-alive reply: keep waiting
    assert_eq!(s.step(reply(&[1]), false, 1000), Action::Receive);

    let first = keep_alive_package_builder(0, &[], &[0; 4], 1, true, HOST_IP, &KAV);
    assert_eq!(s.step(reply(&[7]), false, 1000), Action::Exchange(first));
    // the server asks for the next number
    let bumped = keep_alive_package_builder(1, &[], &[0; 4], 1, false, HOST_IP, &KAV);
    assert_eq!(s.step(reply(&[7, 0, 0x10]), false, 1000), Action::Exchange(bumped));
    let second = keep_alive_package_builder(1, &[], &[0; 4], 1, false, HOST_IP, &KAV);
    assert_eq!(s.step(reply(&[7, 1, 0x28, 0]), false, 1000), Action::Exchange(second));

    let mut tail_reply = vec![7u8; 20];
    tail_reply[16..20].copy_from_slice(&[9, 8, 7, 6]);
    let third = keep_alive_package_builder(2, &[], &[9, 8, 7, 6], 3, false, HOST_IP, &KAV);
    assert_eq!(s.step(reply(&tail_reply), false, 1000), Action::Exchange(third));

    let beat1 = keep_alive_package_builder(3, &[], &[9, 8, 7, 6], 1, false, HOST_IP, &KAV);
    assert_eq!(s.step(reply(&[7]), false, 1000), Action::Exchange(beat1));
    let beat2 = keep_alive_package_builder(4, &[], &[9, 8, 7, 6], 3, false, HOST_IP, &KAV);
    assert_eq!(s.step(reply(&[7, 0]), false, 1000), Action::Exchange(beat2));
    assert_eq!(s.step(reply(&[7]), false, 1000), Action::Sleep);
    assert_eq!(s.beat, 5);
    for _ in 0..19 {
        assert_eq!(s.step(Event::Slept, false, 1000), Action::Sleep);
    }
    let ka1_again = keep_alive1_packet(&salt, b"testpass123", &package_tail, 1020);
    assert_eq!(s.step(Event::Slept, false, 1020), Action::Exchange(ka1_again));

    let (bye, _) = logout(b"testuser", 0xAABBCCDDEEFF, &cfg).unwrap();
    assert_eq!(s.step(reply(&[7]), true, 1020), Action::Exchange(bye));
    assert_eq!(s.step(Event::RecvFailed(true), true, 1020), Action::Finish(Outcome::LoggedOut));
    assert_eq!(s.phase, Phase::Done);
}

#[test]
fn stop_before_login_sends_nothing() {
    let mut s = Session::new(test_config());
    assert_eq!(s.step(Event::Begin(7), true, 0), Action::Finish(Outcome::Stopped));

    let mut s = Session::new(test_config());
    assert_eq!(s.step(Event::Begin(7), false, 0), Action::Exchange(challenge_packet(7)));
    assert_eq!(s.step(Event::RecvFailed(true), true, 3), Action::Finish(Outcome::Stopped));
}

#[test]
fn rejected_and_failed_sessions() {
    let mut s = Session::new(test_config());
    s.step(Event::Begin(7), false, 0);
    assert_eq!(s.step(Event::Reply(vec![2, 0, 0, 0, 1, 2, 3, 4], false), false, 0), Action::Finish(Outcome::Failed(ClientError::WrongServer)));

    let mut s = Session::new(test_config());
    s.step(Event::Begin(7), false, 0);
    assert_eq!(s.step(reply(&[5]), false, 0), Action::Finish(Outcome::Failed(ClientError::ChallengeRejected)));

    let mut s = Session::new(test_config());
    s.step(Event::Begin(7), false, 0);
    s.step(reply(&[2, 0, 0, 0, 1, 2, 3, 4]), false, 0);
    assert_eq!(s.step(reply(&[5]), false, 0), Action::Finish(Outcome::Failed(ClientError::LoginRejected)));

    let mut bad = test_config();
    bad.mac = "not a mac".to_string();
    let mut s = Session::new(bad);
    assert!(matches!(s.step(Event::Begin(7), false, 0), Action::Finish(Outcome::Failed(ClientError::Config(_)))));
}

#[test]
fn heartbeat_failure_restarts_heartbeat() {
    let cfg = test_config();
    let mut s = Session::new(cfg);
    s.step(Event::Begin(1), false, 0);
    s.step(reply(&[2, 0, 0, 0, 1, 2, 3, 4]), false, 0);
    s.step(reply(&[4]), false, 0);
    s.step(Event::Drained, false, 0);
    s.step(reply(&[7]), false, 0);
    s.step(reply(&[7, 0, 0x28, 0]), false, 0);
    s.step(reply(&[7]), false, 0);
    let beat = keep_alive_package_builder(2, &[], &[0; 4], 1, false, HOST_IP, &KAV);
    assert_eq!(s.step(reply(&[7]), false, 0), Action::Exchange(beat.clone()));
    assert_eq!(s.step(Event::RecvFailed(true), false, 0), Action::Exchange(beat));
}

#[test]
fn seed_is_time_plus_offset() {
    for _ in 0..50 {
        let r = challenge_seed(1_700_000_000);
        assert!((1_700_000_015..=1_700_000_255).contains(&r));
    }
}

#[test]
fn network_failures_end_the_session() {
    // a send that fails during the challenge
    let mut s = Session::new(test_config());
    s.step(Event::Begin(7), false, 0);
    assert_eq!(s.step(Event::SendFailed, false, 0), Action::Finish(Outcome::Failed(ClientError::Io)));

    // no reply to the login packet
    let mut s = Session::new(test_config());
    s.step(Event::Begin(7), false, 0);
    s.step(reply(&[2, 0, 0, 0, 1, 2, 3, 4]), false, 0);
    assert_eq!(s.step(Event::RecvFailed(true), false, 0), Action::Finish(Outcome::Failed(ClientError::Io)));
    assert!(!s.is_logged_in());

    // a receive error that is not a timeout retries the challenge
    let mut s = Session::new(test_config());
    s.step(Event::Begin(7), false, 0);
    assert_eq!(s.step(Event::RecvFailed(false), false, 0), Action::Exchange(challenge_packet(7)));
}

#[test]
fn short_challenge_replies_are_rejected() {
    for short in [&[][..], &[2u8][..], &[2u8, 0, 0, 0, 1, 2, 3][..]] {
        let mut s = Session::new(test_config());
        s.step(Event::Begin(7), false, 0);
        assert_eq!(s.step(reply(short), false, 0), Action::Finish(Outcome::Failed(ClientError::ChallengeRejected)));
    }
}

#[test]
fn bad_hex_field_is_a_config_error() {
    let mut cfg = test_config();
    cfg.control_check_status = "aéa".to_string();
    let mut s = Session::new(cfg);
    s.step(Event::Begin(7), false, 0);
    assert_eq!(
        s.step(reply(&[2, 0, 0, 0, 1, 2, 3, 4]), false, 0),
        Action::Finish(Outcome::Failed(ClientError::Config(drcom::config::ConfigError::InvalidHex)))
    );
}
