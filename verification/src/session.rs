//! The client's protocol decisions, as a state machine that the I/O loop drives.
//!
//! The driver performs each [`Action`] (send a packet and wait for one reply,
//! wait for a reply, drain the socket, sleep a second) and reports what
//! happened as an [`Event`], together with the current value of the stop
//! request and the current time.

use vstd::prelude::*;
use vstd::utf8::encode_utf8;
use rand::Rng;
use crate::config::{hex_field, ip_field, mac_value, Config, ConfigError};
use crate::protocol::{
    challenge_packet, challenge_salt, challenge_spec, is_keep_alive_reply, keep_alive1_packet,
    keep_alive1_spec, keep_alive_package_builder, keep_alive_spec, login_fields_ok, login_tail,
    login_tail_spec, logout, logout_result, logout_spec, mkpkt, mkpkt_panics, mkpkt_would_panic, mkpkt_result, reply_tail,
    reply_tail_spec, salt_spec,
};

verus! {

/// Why a session ended without logging out.
#[derive(Debug, Clone, Copy, PartialEq, Eq, Structural)]
pub enum ClientError {
    /// A configuration field could not be read.
    Config(ConfigError),
    /// Sending or receiving failed.
    Io,
    /// A reply came from another address than the server.
    WrongServer,
    /// The challenge reply did not start with `02`, or was too short to hold the salt.
    ChallengeRejected,
    /// The login reply did not start with `04`.
    LoginRejected,
}

/// How a session ended.
#[derive(Debug, Clone, Copy, PartialEq, Eq, Structural)]
pub enum Outcome {
    /// A stop was requested before login; no logout was sent.
    Stopped,
    /// A stop was requested after login and the logout packet was sent.
    LoggedOut,
    /// The session failed.
    Failed(ClientError),
}

/// Where the session stands.
#[derive(Debug, Clone, Copy, PartialEq, Eq, Structural)]
pub enum Phase {
    /// Not started.
    Idle,
    /// A challenge request is out.
    Challenge,
    /// The login packet is out.
    Login,
    /// Stale datagrams are being drained after login.
    Draining,
    /// The first first-stage keep-alive is out.
    FirstKeepAlive,
    /// The keep-alive handshake packet is out.
    Handshake,
    /// The second keep-alive of the opening exchange is out.
    SecondStage,
    /// The third keep-alive of the opening exchange is out.
    ThirdStage,
    /// The first packet of a heartbeat is out.
    BeatFirst,
    /// The second packet of a heartbeat is out.
    BeatSecond,
    /// Resting between heartbeats.
    Resting,
    /// The first-stage keep-alive that ends a heartbeat is out.
    BeatKeepAlive,
    /// The logout packet is out.
    LoggingOut,
    /// Finished.
    Done,
}

/// What the driver observed.
#[derive(Debug)]
pub enum Event {
    /// Start, with the challenge seed (see [`challenge_seed`]).
    Begin(u64),
    /// A datagram arrived; the flag says whether it came from the server.
    Reply(Vec<u8>, bool),
    /// Sending failed.
    SendFailed,
    /// Receiving failed; the flag says whether it was a timeout.
    RecvFailed(bool),
    /// The socket has been drained.
    Drained,
    /// A one-second sleep ended.
    Slept,
}

/// What the driver must do next.
#[derive(Debug, PartialEq, Eq)]
pub enum Action {
    /// Send the packet to the server, then wait for one datagram.
    Exchange(Vec<u8>),
    /// Wait for one datagram.
    Receive,
    /// Receive until receiving fails.
    Drain,
    /// Sleep one second.
    Sleep,
    /// Stop with this outcome.
    Finish(Outcome),
}

/// The kind of an [`Action`].
#[derive(Debug, Clone, Copy, PartialEq, Eq, Structural)]
pub enum Act {
    Exchange,
    Receive,
    Drain,
    Sleep,
    Finish(Outcome),
}

/// An action as its kind and the packet it sends (empty when it sends none).
pub open spec fn action_view(a: Action) -> (Act, Seq<u8>) {
    match a {
        Action::Exchange(p) => (Act::Exchange, p@),
        Action::Receive => (Act::Receive, seq![]),
        Action::Drain => (Act::Drain, seq![]),
        Action::Sleep => (Act::Sleep, seq![]),
        Action::Finish(o) => (Act::Finish(o), seq![]),
    }
}

/// Session state.
pub struct Session {
    pub config: Config,
    pub phase: Phase,
    /// Challenge seed.
    pub seed: u64,
    /// The configured MAC as a number.
    pub mac: u64,
    pub salt: [u8; 4],
    /// Bytes 23 to 39 of the login reply.
    pub package_tail: [u8; 16],
    /// Server sequence number of the opening exchange.
    pub svr_num: u8,
    /// Whether the handshake packet still carries the first-packet marker.
    pub handshake_first: bool,
    /// Keep-alive tail taken from the latest reply.
    pub tail: [u8; 4],
    /// Heartbeat number.
    pub beat: u8,
    /// Seconds slept since the last heartbeat.
    pub rests: u8,
    pub host_ip: [u8; 4],
}

/// The state of a session without its configuration.
#[verifier::ext_equal]
pub struct SessionView {
    pub phase: Phase,
    pub seed: u64,
    pub mac: u64,
    pub salt: Seq<u8>,
    pub package_tail: Seq<u8>,
    pub svr_num: u8,
    pub handshake_first: bool,
    pub tail: Seq<u8>,
    pub beat: u8,
    pub rests: u8,
    pub host_ip: Seq<u8>,
}

impl View for Session {
    type V = SessionView;

    open spec fn view(&self) -> SessionView {
        SessionView {
            phase: self.phase,
            seed: self.seed,
            mac: self.mac,
            salt: self.salt@,
            package_tail: self.package_tail@,
            svr_num: self.svr_num,
            handshake_first: self.handshake_first,
            tail: self.tail@,
            beat: self.beat,
            rests: self.rests,
            host_ip: self.host_ip@,
        }
    }
}

/// The password bytes.
pub open spec fn pwd_of(c: Config) -> Seq<u8> {
    encode_utf8(c.password@)
}

/// The username bytes.
pub open spec fn usr_of(c: Config) -> Seq<u8> {
    encode_utf8(c.username@)
}

/// The keep-alive version bytes.
pub open spec fn kav_of(c: Config) -> Seq<u8> {
    match hex_field(c.keep_alive_version@) {
        Ok(b) => b,
        Err(_) => seq![],
    }
}

/// The configurations on which the client would panic when the server answers:
/// building the login packet panics (see [`mkpkt_panics`]).
pub open spec fn config_panics(c: Config) -> bool {
    mkpkt_panics(pwd_of(c), c)
}

/// The phases of the keep-alive exchanges.
pub open spec fn keeping_alive(p: Phase) -> bool {
    match p {
        Phase::Handshake | Phase::SecondStage | Phase::ThirdStage | Phase::BeatFirst | Phase::BeatSecond
        | Phase::Resting | Phase::BeatKeepAlive => true,
        _ => false,
    }
}

/// The phases after a successful login.
pub open spec fn logged_in(p: Phase) -> bool {
    keeping_alive(p) || p == Phase::Draining || p == Phase::FirstKeepAlive || p == Phase::LoggingOut
}

/// The phases after the challenge has been answered.
pub open spec fn salted(p: Phase) -> bool {
    logged_in(p) || p == Phase::Login
}

/// Well-formedness of a session state with its configuration.
pub open spec fn session_wf(v: SessionView, c: Config) -> bool {
    &&& !config_panics(c)
    &&& v.salt.len() == 4
    &&& v.package_tail.len() == 16
    &&& v.tail.len() == 4
    &&& v.host_ip.len() == 4
    &&& (salted(v.phase) || v.phase == Phase::Challenge) ==> mac_value(c.mac@) == Some(v.mac as nat)
    &&& salted(v.phase) ==> login_fields_ok(c)
    &&& keeping_alive(v.phase) ==> hex_field(c.keep_alive_version@) is Ok && ip_field(c.host_ip@) == Ok::<
        Seq<u8>,
        ConfigError,
    >(v.host_ip)
    &&& v.phase == Phase::Resting ==> 1 <= v.rests <= 20
}

impl Session {
    /// Well-formedness (see [`session_wf`]).
    pub open spec fn wf(&self) -> bool {
        session_wf(self@, self.config)
    }
}

/// The events that the driver can report in each phase.
pub open spec fn expects(p: Phase, e: Event) -> bool {
    match p {
        Phase::Idle => e is Begin,
        Phase::Draining => e is Drained,
        Phase::Resting => e is Slept,
        Phase::Done => false,
        _ => e is Reply || e is SendFailed || e is RecvFailed,
    }
}

/// The state with another phase.
pub open spec fn at(v: SessionView, p: Phase) -> SessionView {
    SessionView { phase: p, ..v }
}

/// Finish with an outcome.
pub open spec fn finish(v: SessionView, o: Outcome) -> (SessionView, Act, Seq<u8>) {
    (at(v, Phase::Done), Act::Finish(o), seq![])
}

/// Send the logout packet, or fail when its fields cannot be read.
pub open spec fn start_logout(v: SessionView, c: Config) -> (SessionView, Act, Seq<u8>) {
    match logout_result(usr_of(c), v.mac, c) {
        Ok(p) => (at(v, Phase::LoggingOut), Act::Exchange, p),
        Err(e) => finish(v, Outcome::Failed(ClientError::Config(e))),
    }
}

/// The top of the heartbeat loop: log out when a stop is requested, otherwise
/// send the first packet of a heartbeat.
pub open spec fn beat_top(v: SessionView, c: Config, stop: bool) -> (SessionView, Act, Seq<u8>) {
    if stop {
        start_logout(v, c)
    } else {
        (at(v, Phase::BeatFirst), Act::Exchange, keep_alive_spec(v.beat, v.tail, 1, false, v.host_ip, kav_of(c)))
    }
}

/// The handshake packet for the current server number.
pub open spec fn handshake_packet(v: SessionView, c: Config) -> Seq<u8> {
    keep_alive_spec(v.svr_num, seq![0u8, 0, 0, 0], 1, v.handshake_first, v.host_ip, kav_of(c))
}

/// A reply that accepts the handshake: `07 00 28 00` or `07 <svr_num> 28 00`.
pub open spec fn handshake_accepted(d: Seq<u8>, svr_num: u8) -> bool {
    d.len() >= 4 && d[0] == 0x07 && (d[1] == 0x00 || d[1] == svr_num) && d[2] == 0x28 && d[3] == 0x00
}

/// A reply that asks for the next handshake number: `07 ?? 10`.
pub open spec fn handshake_bumped(d: Seq<u8>) -> bool {
    d.len() > 2 && d[0] == 0x07 && d[2] == 0x10
}

/// One step of the client: the next state, the kind of the next action and
/// the packet it sends.
pub open spec fn next(v: SessionView, c: Config, e: Event, stop: bool, now: u64) -> (SessionView, Act, Seq<u8>) {
    match v.phase {
        Phase::Idle => match e {
            Event::Begin(seed) => match mac_value(c.mac@) {
                None => finish(v, Outcome::Failed(ClientError::Config(ConfigError::InvalidMac))),
                Some(m) => {
                    let v1 = SessionView { seed: seed, mac: m as u64, ..v };
                    if stop {
                        finish(v1, Outcome::Stopped)
                    } else {
                        (at(v1, Phase::Challenge), Act::Exchange, challenge_spec(seed))
                    }
                },
            },
            _ => (v, Act::Receive, seq![]),
        },
        Phase::Challenge => match e {
            Event::Reply(d, from) => if !from {
                finish(v, Outcome::Failed(ClientError::WrongServer))
            } else if d@.len() < 8 || d@[0] != 0x02 {
                finish(v, Outcome::Failed(ClientError::ChallengeRejected))
            } else {
                let salt = salt_spec(d@);
                match mkpkt_result(salt, usr_of(c), pwd_of(c), v.mac, c) {
                    Err(err) => finish(v, Outcome::Failed(ClientError::Config(err))),
                    Ok(p) => (SessionView { phase: Phase::Login, salt: salt, ..v }, Act::Exchange, p),
                }
            },
            Event::RecvFailed(_) => if stop {
                finish(v, Outcome::Stopped)
            } else {
                (v, Act::Exchange, challenge_spec(v.seed))
            },
            _ => finish(v, Outcome::Failed(ClientError::Io)),
        },
        Phase::Login => match e {
            Event::Reply(d, from) => if !from {
                finish(v, Outcome::Failed(ClientError::WrongServer))
            } else if d@.len() == 0 || d@[0] != 0x04 {
                finish(v, Outcome::Failed(ClientError::LoginRejected))
            } else {
                (SessionView { phase: Phase::Draining, package_tail: login_tail_spec(d@), ..v }, Act::Drain, seq![])
            },
            _ => finish(v, Outcome::Failed(ClientError::Io)),
        },
        Phase::Draining => (
            at(v, Phase::FirstKeepAlive),
            Act::Exchange,
            keep_alive1_spec(v.salt, pwd_of(c), v.package_tail, now),
        ),
        Phase::FirstKeepAlive => match e {
            Event::Reply(d, _) => if is_keep_alive_reply(d@) {
                match (ip_field(c.host_ip@), hex_field(c.keep_alive_version@)) {
                    (Err(err), _) => finish(v, Outcome::Failed(ClientError::Config(err))),
                    (Ok(_), Err(err)) => finish(v, Outcome::Failed(ClientError::Config(err))),
                    (Ok(ip), Ok(kav)) => {
                        let v1 = SessionView {
                            phase: Phase::Handshake,
                            svr_num: 0,
                            handshake_first: true,
                            tail: seq![0u8, 0, 0, 0],
                            host_ip: ip,
                            ..v
                        };
                        (v1, Act::Exchange, handshake_packet(v1, c))
                    },
                }
            } else {
                (v, Act::Receive, seq![])
            },
            _ => finish(v, Outcome::Failed(ClientError::Io)),
        },
        Phase::Handshake => match e {
            Event::Reply(d, _) => if handshake_accepted(d@, v.svr_num) {
                (
                    at(v, Phase::SecondStage),
                    Act::Exchange,
                    keep_alive_spec(v.svr_num, seq![0u8, 0, 0, 0], 1, false, v.host_ip, kav_of(c)),
                )
            } else if handshake_bumped(d@) {
                let v1 = SessionView { svr_num: ((v.svr_num + 1) % 256) as u8, handshake_first: false, ..v };
                (v1, Act::Exchange, handshake_packet(v1, c))
            } else {
                (v, Act::Exchange, handshake_packet(v, c))
            },
            _ => finish(v, Outcome::Failed(ClientError::Io)),
        },
        Phase::SecondStage => match e {
            Event::Reply(d, _) => if is_keep_alive_reply(d@) {
                let v1 = SessionView {
                    phase: Phase::ThirdStage,
                    svr_num: ((v.svr_num + 1) % 256) as u8,
                    tail: reply_tail_spec(d@, v.tail),
                    ..v
                };
                (v1, Act::Exchange, keep_alive_spec(v1.svr_num, v1.tail, 3, false, v.host_ip, kav_of(c)))
            } else {
                (v, Act::Receive, seq![])
            },
            _ => finish(v, Outcome::Failed(ClientError::Io)),
        },
        Phase::ThirdStage => match e {
            Event::Reply(d, _) => if is_keep_alive_reply(d@) {
                let n = ((v.svr_num + 1) % 256) as u8;
                beat_top(SessionView { svr_num: n, beat: n, tail: reply_tail_spec(d@, v.tail), ..v }, c, stop)
            } else {
                (v, Act::Receive, seq![])
            },
            _ => finish(v, Outcome::Failed(ClientError::Io)),
        },
        Phase::BeatFirst => match e {
            Event::Reply(d, _) => {
                let v1 = SessionView { phase: Phase::BeatSecond, tail: reply_tail_spec(d@, v.tail), ..v };
                (v1, Act::Exchange, keep_alive_spec(((v.beat + 1) % 256) as u8, v1.tail, 3, false, v.host_ip, kav_of(c)))
            },
            _ => beat_top(v, c, stop),
        },
        Phase::BeatSecond => match e {
            Event::Reply(d, _) => {
                let v1 = SessionView { beat: ((v.beat + 2) % 255) as u8, tail: reply_tail_spec(d@, v.tail), ..v };
                if stop {
                    start_logout(v1, c)
                } else {
                    (SessionView { phase: Phase::Resting, rests: 1, ..v1 }, Act::Sleep, seq![])
                }
            },
            _ => beat_top(v, c, stop),
        },
        Phase::Resting => if v.rests >= 20 {
            (at(v, Phase::BeatKeepAlive), Act::Exchange, keep_alive1_spec(v.salt, pwd_of(c), v.package_tail, now))
        } else if stop {
            start_logout(v, c)
        } else {
            (SessionView { rests: (v.rests + 1) as u8, ..v }, Act::Sleep, seq![])
        },
        Phase::BeatKeepAlive => match e {
            Event::Reply(d, _) => if is_keep_alive_reply(d@) {
                beat_top(v, c, stop)
            } else {
                (v, Act::Receive, seq![])
            },
            _ => beat_top(v, c, stop),
        },
        Phase::LoggingOut => match e {
            Event::RecvFailed(timed_out) => if timed_out {
                finish(v, Outcome::LoggedOut)
            } else {
                finish(v, Outcome::Failed(ClientError::Io))
            },
            Event::SendFailed => finish(v, Outcome::Failed(ClientError::Io)),
            _ => finish(v, Outcome::LoggedOut),
        },
        Phase::Done => (v, Act::Receive, seq![]),
    }
}

/// `rand`'s `thread_rng().gen_range(lo..=hi)`: a value in `lo..=hi`. Which
/// value comes back depends on the generator and is not stated.
#[verifier::external_body]
fn random_between(lo: u64, hi: u64) -> (r: u64)
    requires
        lo <= hi,
    ensures
        lo <= r <= hi,
{
    rand::thread_rng().gen_range(lo..=hi)
}

/// The challenge seed: the current time plus a random offset in `15..=255`,
/// modulo 2^64.
pub fn challenge_seed(now: u64) -> (r: u64)
    ensures
        15 <= (r as int - now as int) % 0x1_0000_0000_0000_0000 <= 255,
{
    let k = random_between(15, 255);
    let r = now.wrapping_add(k);
    assert((r as int - now as int) % 0x1_0000_0000_0000_0000 == k as int) by (nonlinear_arith)
        requires
            r as int == (now as int + k as int) % 0x1_0000_0000_0000_0000,
            0 <= now as int,
            now as int <= u64::MAX as int,
            15 <= k as int <= 255,
    ;
    r
}

/// The outcome of a step: the state, action kind and packet that [`next`] gives.
pub open spec fn stepped(old: SessionView, c: Config, e: Event, stop: bool, now: u64, new: SessionView, a: Action) -> bool {
    let (v, k, p) = next(old, c, e, stop, now);
    &&& new =~= v
    &&& action_view(a).0 == k
    &&& action_view(a).1 == p
}

impl Session {
    /// A session that has not started.
    pub fn new(config: Config) -> (s: Session)
        requires
            !config_panics(config),
        ensures
            s.wf(),
            s.config == config,
            s.phase == Phase::Idle,
    {
        Session {
            config,
            phase: Phase::Idle,
            seed: 0,
            mac: 0,
            salt: [0u8; 4],
            package_tail: [0u8; 16],
            svr_num: 0,
            handshake_first: true,
            tail: [0u8; 4],
            beat: 0,
            rests: 0,
            host_ip: [0u8; 4],
        }
    }

    fn usr(&self) -> (r: &[u8])
        ensures
            r@ == usr_of(self.config),
    {
        self.config.username.as_str().as_bytes()
    }

    fn pwd(&self) -> (r: &[u8])
        ensures
            r@ == pwd_of(self.config),
    {
        self.config.password.as_str().as_bytes()
    }

    fn kav(&self) -> (r: Vec<u8>)
        requires
            self.wf(),
            keeping_alive(self.phase),
        ensures
            r@ == kav_of(self.config),
    {
        match self.config.parse_hex(self.config.keep_alive_version.as_str()) {
            Ok(v) => v,
            Err(_) => Vec::new(),
        }
    }

    fn finish(&mut self, o: Outcome) -> (a: Action)
        ensures
            final(self)@ =~= at(old(self)@, Phase::Done),
            final(self).config == old(self).config,
            action_view(a) == (Act::Finish(o), Seq::<u8>::empty()),
    {
        self.phase = Phase::Done;
        Action::Finish(o)
    }

    fn start_logout(&mut self) -> (a: Action)
        requires
            old(self).wf(),
            logged_in(old(self).phase) || keeping_alive(old(self).phase),
        ensures
            final(self).config == old(self).config,
            ({
                let (v, k, p) = start_logout(old(self)@, old(self).config);
                &&& final(self)@ =~= v
                &&& action_view(a).0 == k
                &&& action_view(a).1 == p
            }),
    {
        match logout(self.usr(), self.mac, &self.config) {
            Ok((p, _)) => {
                self.phase = Phase::LoggingOut;
                Action::Exchange(p)
            },
            Err(e) => self.finish(Outcome::Failed(ClientError::Config(e))),
        }
    }

    fn beat_top(&mut self, stop: bool) -> (a: Action)
        requires
            old(self).wf(),
            keeping_alive(old(self).phase),
        ensures
            final(self).config == old(self).config,
            ({
                let (v, k, p) = beat_top(old(self)@, old(self).config, stop);
                &&& final(self)@ =~= v
                &&& action_view(a).0 == k
                &&& action_view(a).1 == p
            }),
    {
        if stop {
            self.start_logout()
        } else {
            let kav = self.kav();
            let p = keep_alive_package_builder(self.beat, &[], self.tail.as_slice(), 1, false, self.host_ip, kav.as_slice());
            self.phase = Phase::BeatFirst;
            Action::Exchange(p)
        }
    }

    fn handshake_packet(&self) -> (p: Vec<u8>)
        requires
            self.wf(),
            keeping_alive(self.phase),
        ensures
            p@ == handshake_packet(self@, self.config),
    {
        let kav = self.kav();
        let zero: [u8; 4] = [0u8; 4];
        assert(zero@ =~= seq![0u8, 0, 0, 0]);
        keep_alive_package_builder(self.svr_num, &[], zero.as_slice(), 1, self.handshake_first, self.host_ip, kav.as_slice())
    }
}

impl Session {
    fn on_begin(&mut self, seed: u64, stop: bool) -> (a: Action)
        requires
            old(self).wf(),
            old(self).phase == Phase::Idle,
        ensures
            final(self).wf(),
            final(self).config == old(self).config,
            stepped(old(self)@, old(self).config, Event::Begin(seed), stop, 0, final(self)@, a),
    {
        match self.config.parse_mac() {
            Err(_) => self.finish(Outcome::Failed(ClientError::Config(ConfigError::InvalidMac))),
            Ok(m) => {
                self.seed = seed;
                self.mac = m;
                if stop {
                    self.finish(Outcome::Stopped)
                } else {
                    self.phase = Phase::Challenge;
                    Action::Exchange(challenge_packet(seed))
                }
            },
        }
    }

    fn on_challenge(&mut self, event: Event, stop: bool) -> (a: Action)
        requires
            old(self).wf(),
            old(self).phase == Phase::Challenge,
            expects(old(self).phase, event),
        ensures
            final(self).wf(),
            final(self).config == old(self).config,
            stepped(old(self)@, old(self).config, event, stop, 0, final(self)@, a),
    {
        match event {
            Event::Reply(d, from) => {
                if !from {
                    return self.finish(Outcome::Failed(ClientError::WrongServer));
                }
                if d.len() < 8 || d[0] != 0x02 {
                    return self.finish(Outcome::Failed(ClientError::ChallengeRejected));
                }
                let salt = challenge_salt(d.as_slice());
                match mkpkt(&salt, self.usr(), self.pwd(), self.mac, &self.config) {
                    Err(e) => self.finish(Outcome::Failed(ClientError::Config(e))),
                    Ok(p) => {
                        self.salt = salt;
                        self.phase = Phase::Login;
                        Action::Exchange(p)
                    },
                }
            },
            Event::RecvFailed(_) => {
                if stop {
                    self.finish(Outcome::Stopped)
                } else {
                    Action::Exchange(challenge_packet(self.seed))
                }
            },
            _ => self.finish(Outcome::Failed(ClientError::Io)),
        }
    }

    fn on_login(&mut self, event: Event) -> (a: Action)
        requires
            old(self).wf(),
            old(self).phase == Phase::Login,
        ensures
            final(self).wf(),
            final(self).config == old(self).config,
            stepped(old(self)@, old(self).config, event, false, 0, final(self)@, a),
    {
        match event {
            Event::Reply(d, from) => {
                if !from {
                    return self.finish(Outcome::Failed(ClientError::WrongServer));
                }
                if d.len() == 0 || d[0] != 0x04 {
                    return self.finish(Outcome::Failed(ClientError::LoginRejected));
                }
                self.package_tail = login_tail(d.as_slice());
                self.phase = Phase::Draining;
                Action::Drain
            },
            _ => self.finish(Outcome::Failed(ClientError::Io)),
        }
    }

    fn on_drained(&mut self, now: u64) -> (a: Action)
        requires
            old(self).wf(),
            old(self).phase == Phase::Draining,
        ensures
            final(self).wf(),
            final(self).config == old(self).config,
            stepped(old(self)@, old(self).config, Event::Drained, false, now, final(self)@, a),
    {
        let p = keep_alive1_packet(&self.salt, self.pwd(), &self.package_tail, now);
        self.phase = Phase::FirstKeepAlive;
        Action::Exchange(p)
    }

    fn on_first_keep_alive(&mut self, event: Event) -> (a: Action)
        requires
            old(self).wf(),
            old(self).phase == Phase::FirstKeepAlive,
        ensures
            final(self).wf(),
            final(self).config == old(self).config,
            stepped(old(self)@, old(self).config, event, false, 0, final(self)@, a),
    {
        match event {
            Event::Reply(d, _) => {
                if !(d.len() > 0 && d[0] == 0x07) {
                    return Action::Receive;
                }
                let ip = match self.config.parse_ip(self.config.host_ip.as_str()) {
                    Ok(ip) => ip,
                    Err(e) => return self.finish(Outcome::Failed(ClientError::Config(e))),
                };
                let kav_ok = self.config.parse_hex(self.config.keep_alive_version.as_str());
                if let Err(e) = kav_ok {
                    return self.finish(Outcome::Failed(ClientError::Config(e)));
                }
                self.phase = Phase::Handshake;
                self.svr_num = 0;
                self.handshake_first = true;
                self.tail = [0u8; 4];
                self.host_ip = ip;
                assert(self.tail@ =~= seq![0u8, 0, 0, 0]);
                Action::Exchange(self.handshake_packet())
            },
            _ => self.finish(Outcome::Failed(ClientError::Io)),
        }
    }

    fn on_handshake(&mut self, event: Event) -> (a: Action)
        requires
            old(self).wf(),
            old(self).phase == Phase::Handshake,
        ensures
            final(self).wf(),
            final(self).config == old(self).config,
            stepped(old(self)@, old(self).config, event, false, 0, final(self)@, a),
    {
        match event {
            Event::Reply(d, _) => {
                if d.len() >= 4 && d[0] == 0x07 && (d[1] == 0x00 || d[1] == self.svr_num) && d[2] == 0x28 && d[3] == 0x00 {
                    let kav = self.kav();
                    let zero: [u8; 4] = [0u8; 4];
                    assert(zero@ =~= seq![0u8, 0, 0, 0]);
                    let p = keep_alive_package_builder(self.svr_num, &[], zero.as_slice(), 1, false, self.host_ip, kav.as_slice());
                    self.phase = Phase::SecondStage;
                    Action::Exchange(p)
                } else if d.len() > 2 && d[0] == 0x07 && d[2] == 0x10 {
                    self.svr_num = self.svr_num.wrapping_add(1);
                    self.handshake_first = false;
                    Action::Exchange(self.handshake_packet())
                } else {
                    Action::Exchange(self.handshake_packet())
                }
            },
            _ => self.finish(Outcome::Failed(ClientError::Io)),
        }
    }

    fn on_second_stage(&mut self, event: Event) -> (a: Action)
        requires
            old(self).wf(),
            old(self).phase == Phase::SecondStage,
        ensures
            final(self).wf(),
            final(self).config == old(self).config,
            stepped(old(self)@, old(self).config, event, false, 0, final(self)@, a),
    {
        match event {
            Event::Reply(d, _) => {
                if !(d.len() > 0 && d[0] == 0x07) {
                    return Action::Receive;
                }
                let kav = self.kav();
                self.svr_num = self.svr_num.wrapping_add(1);
                self.tail = reply_tail(d.as_slice(), self.tail);
                self.phase = Phase::ThirdStage;
                let p = keep_alive_package_builder(self.svr_num, &[], self.tail.as_slice(), 3, false, self.host_ip, kav.as_slice());
                Action::Exchange(p)
            },
            _ => self.finish(Outcome::Failed(ClientError::Io)),
        }
    }

    fn on_third_stage(&mut self, event: Event, stop: bool) -> (a: Action)
        requires
            old(self).wf(),
            old(self).phase == Phase::ThirdStage,
        ensures
            final(self).wf(),
            final(self).config == old(self).config,
            stepped(old(self)@, old(self).config, event, stop, 0, final(self)@, a),
    {
        match event {
            Event::Reply(d, _) => {
                if !(d.len() > 0 && d[0] == 0x07) {
                    return Action::Receive;
                }
                self.svr_num = self.svr_num.wrapping_add(1);
                self.beat = self.svr_num;
                self.tail = reply_tail(d.as_slice(), self.tail);
                self.beat_top(stop)
            },
            _ => self.finish(Outcome::Failed(ClientError::Io)),
        }
    }

    fn on_beat_first(&mut self, event: Event, stop: bool) -> (a: Action)
        requires
            old(self).wf(),
            old(self).phase == Phase::BeatFirst,
        ensures
            final(self).wf(),
            final(self).config == old(self).config,
            stepped(old(self)@, old(self).config, event, stop, 0, final(self)@, a),
    {
        match event {
            Event::Reply(d, _) => {
                let kav = self.kav();
                self.tail = reply_tail(d.as_slice(), self.tail);
                self.phase = Phase::BeatSecond;
                let p = keep_alive_package_builder(self.beat.wrapping_add(1), &[], self.tail.as_slice(), 3, false, self.host_ip, kav.as_slice());
                Action::Exchange(p)
            },
            _ => self.beat_top(stop),
        }
    }

    #[verifier::rlimit(40)]
    fn on_beat_second(&mut self, event: Event, stop: bool) -> (a: Action)
        requires
            old(self).wf(),
            old(self).phase == Phase::BeatSecond,
        ensures
            final(self).wf(),
            final(self).config == old(self).config,
            stepped(old(self)@, old(self).config, event, stop, 0, final(self)@, a),
    {
        match event {
            Event::Reply(d, _) => {
                let ghost v0 = self@;
                self.tail = reply_tail(d.as_slice(), self.tail);
                let b: u8 = ((self.beat as u16 + 2) % 0xFF) as u8;
                assert(b == ((v0.beat + 2) % 255) as u8);
                self.beat = b;
                assert(self@ =~= SessionView { beat: ((v0.beat + 2) % 255) as u8, tail: reply_tail_spec(d@, v0.tail), ..v0 });
                if stop {
                    self.start_logout()
                } else {
                    self.phase = Phase::Resting;
                    self.rests = 1;
                    Action::Sleep
                }
            },
            _ => self.beat_top(stop),
        }
    }

    fn on_rest(&mut self, stop: bool, now: u64) -> (a: Action)
        requires
            old(self).wf(),
            old(self).phase == Phase::Resting,
        ensures
            final(self).wf(),
            final(self).config == old(self).config,
            stepped(old(self)@, old(self).config, Event::Slept, stop, now, final(self)@, a),
    {
        if self.rests >= 20 {
            let p = keep_alive1_packet(&self.salt, self.pwd(), &self.package_tail, now);
            self.phase = Phase::BeatKeepAlive;
            Action::Exchange(p)
        } else if stop {
            self.start_logout()
        } else {
            self.rests = self.rests + 1;
            Action::Sleep
        }
    }

    fn on_beat_keep_alive(&mut self, event: Event, stop: bool) -> (a: Action)
        requires
            old(self).wf(),
            old(self).phase == Phase::BeatKeepAlive,
        ensures
            final(self).wf(),
            final(self).config == old(self).config,
            stepped(old(self)@, old(self).config, event, stop, 0, final(self)@, a),
    {
        match event {
            Event::Reply(d, _) => {
                if d.len() > 0 && d[0] == 0x07 {
                    self.beat_top(stop)
                } else {
                    Action::Receive
                }
            },
            _ => self.beat_top(stop),
        }
    }

    fn on_logging_out(&mut self, event: Event) -> (a: Action)
        requires
            old(self).wf(),
            old(self).phase == Phase::LoggingOut,
        ensures
            final(self).wf(),
            final(self).config == old(self).config,
            stepped(old(self)@, old(self).config, event, false, 0, final(self)@, a),
    {
        match event {
            Event::RecvFailed(timed_out) => {
                if timed_out {
                    self.finish(Outcome::LoggedOut)
                } else {
                    self.finish(Outcome::Failed(ClientError::Io))
                }
            },
            Event::SendFailed => self.finish(Outcome::Failed(ClientError::Io)),
            _ => self.finish(Outcome::LoggedOut),
        }
    }
}

impl Session {
    /// Advances the session by one observed event. `stop` is the current
    /// value of the stop request and `now` the current Unix time in seconds.
    pub fn step(&mut self, event: Event, stop: bool, now: u64) -> (a: Action)
        requires
            old(self).wf(),
            expects(old(self).phase, event),
        ensures
            final(self).wf(),
            final(self).config == old(self).config,
            stepped(old(self)@, old(self).config, event, stop, now, final(self)@, a),
    {
        match self.phase {
            Phase::Idle => match event {
                Event::Begin(seed) => self.on_begin(seed, stop),
                _ => Action::Receive,
            },
            Phase::Challenge => self.on_challenge(event, stop),
            Phase::Login => self.on_login(event),
            Phase::Draining => self.on_drained(now),
            Phase::FirstKeepAlive => self.on_first_keep_alive(event),
            Phase::Handshake => self.on_handshake(event),
            Phase::SecondStage => self.on_second_stage(event),
            Phase::ThirdStage => self.on_third_stage(event, stop),
            Phase::BeatFirst => self.on_beat_first(event, stop),
            Phase::BeatSecond => self.on_beat_second(event, stop),
            Phase::Resting => self.on_rest(stop, now),
            Phase::BeatKeepAlive => self.on_beat_keep_alive(event, stop),
            Phase::LoggingOut => self.on_logging_out(event),
            Phase::Done => Action::Receive,
        }
    }

    /// Whether the session has logged in and not finished.
    pub fn is_logged_in(&self) -> (b: bool)
        ensures
            b == logged_in(self.phase),
    {
        match self.phase {
            Phase::Draining | Phase::FirstKeepAlive | Phase::Handshake | Phase::SecondStage | Phase::ThirdStage
            | Phase::BeatFirst | Phase::BeatSecond | Phase::Resting | Phase::BeatKeepAlive | Phase::LoggingOut => true,
            _ => false,
        }
    }
}


/// A stop requested before login ends the session as [`Outcome::Stopped`]
/// and sends nothing more: at the start, and at each challenge timeout.
pub proof fn lemma_stop_before_login(v: SessionView, c: Config, e: Event, now: u64)
    requires
        v.phase == Phase::Idle && (e matches Event::Begin(_)) && mac_value(c.mac@) is Some
            || v.phase == Phase::Challenge && e is RecvFailed,
    ensures
        next(v, c, e, true, now).1 == Act::Finish(Outcome::Stopped),
        next(v, c, e, true, now).2 == Seq::<u8>::empty(),
        next(v, c, e, true, now).0.phase == Phase::Done,
{
}

/// After login, a stop seen while resting between heartbeats sends the logout
/// packet, built from the username, the MAC and the configured control and
/// adapter bytes.
pub proof fn lemma_stop_while_resting(v: SessionView, c: Config, now: u64)
    requires
        session_wf(v, c),
        v.phase == Phase::Resting,
        v.rests < 20,
    ensures
        next(v, c, Event::Slept, true, now).1 == Act::Exchange,
        next(v, c, Event::Slept, true, now).0.phase == Phase::LoggingOut,
        next(v, c, Event::Slept, true, now).2 == logout_spec(
            usr_of(c),
            v.mac,
            hex_field(c.control_check_status@).unwrap(),
            hex_field(c.adapter_num@).unwrap(),
        ),
{
}

/// After login, a stop seen at the top of the heartbeat loop (after the
/// opening exchange, or after a heartbeat's closing keep-alive) sends the
/// logout packet instead of the next heartbeat.
pub proof fn lemma_stop_at_heartbeat(v: SessionView, c: Config, d: Vec<u8>, from: bool, now: u64)
    requires
        session_wf(v, c),
        v.phase == Phase::BeatKeepAlive || v.phase == Phase::ThirdStage,
        is_keep_alive_reply(d@),
    ensures
        next(v, c, Event::Reply(d, from), true, now).1 == Act::Exchange,
        next(v, c, Event::Reply(d, from), true, now).0.phase == Phase::LoggingOut,
        next(v, c, Event::Reply(d, from), true, now).2 == logout_spec(
            usr_of(c),
            next(v, c, Event::Reply(d, from), true, now).0.mac,
            hex_field(c.control_check_status@).unwrap(),
            hex_field(c.adapter_num@).unwrap(),
        ),
{
}

/// Once the logout packet is out, a reply or a receive timeout ends the
/// session as [`Outcome::LoggedOut`].
pub proof fn lemma_logout_completes(v: SessionView, c: Config, e: Event, stop: bool, now: u64)
    requires
        v.phase == Phase::LoggingOut,
        e is Reply || e matches Event::RecvFailed(true),
    ensures
        next(v, c, e, stop, now).1 == Act::Finish(Outcome::LoggedOut),
{
}

/// Without a stop, the heartbeat loop never leaves the keep-alive phases: a
/// failed exchange only starts the heartbeat again.
pub proof fn lemma_heartbeat_retries(v: SessionView, c: Config, e: Event, now: u64)
    requires
        session_wf(v, c),
        v.phase == Phase::BeatFirst || v.phase == Phase::BeatSecond || v.phase == Phase::BeatKeepAlive,
        e is SendFailed || e is RecvFailed,
    ensures
        next(v, c, e, false, now).0.phase == Phase::BeatFirst,
        next(v, c, e, false, now).1 == Act::Exchange,
        next(v, c, e, false, now).2 == keep_alive_spec(v.beat, v.tail, 1, false, v.host_ip, kav_of(c)),
{
}


/// Executable form of [`config_panics`]: whether the client would panic on
/// this configuration once the server answers.
pub fn config_would_panic(config: &Config) -> (b: bool)
    ensures
        b == config_panics(*config),
{
    mkpkt_would_panic(config.password.as_str().as_bytes(), config)
}

} // verus!
