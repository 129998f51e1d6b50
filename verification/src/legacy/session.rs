//! The decisions of the loop that serves all clients.
//!
//! Times are nanoseconds since the start.
use vstd::prelude::*;
use vstd::utf8::encode_utf8;

verus! {

/// The nanoseconds of a second.
pub const SECOND: u128 = 1_000_000_000;

/// How often the backend is asked about itself, in seconds.
pub const REFRESH_SECONDS: u128 = 10;

/// The browsers that are answered within a second.
pub const BROWSERS_PER_SECOND: u32 = 20;

/// The packets that are handled in one round.
pub const PACKETS_PER_ROUND: usize = 512;

/// The backend messages of one client that are handled in one round.
pub const EVENTS_PER_ROUND: usize = 256;

/// The vote options that one client is told in one round.
pub const LABELS_PER_ROUND: usize = 8;

/// The most bytes of the reason for a disconnect.
pub const MAX_REASON: usize = 127;

/// Why the proxy stops.
#[derive(Clone, Copy, Debug, PartialEq, Eq, Structural)]
pub enum SessionError {
    NoConnections,
    NoTimeouts,
    PortsChanged,
}

/// The limits must let someone connect.
pub fn check_limits(max_connections: u64, connect_timeout_seconds: u64, idle_timeout_seconds: u64) -> (r:
    Result<(), SessionError>)
    ensures
        r == if max_connections == 0 {
            Err::<(), SessionError>(SessionError::NoConnections)
        } else if connect_timeout_seconds == 0 || idle_timeout_seconds == 0 {
            Err::<(), SessionError>(SessionError::NoTimeouts)
        } else {
            Ok::<(), SessionError>(())
        },
{
    if max_connections == 0 {
        Err(SessionError::NoConnections)
    } else if connect_timeout_seconds == 0 || idle_timeout_seconds == 0 {
        Err(SessionError::NoTimeouts)
    } else {
        Ok(())
    }
}

/// What the serving loop keeps track of.
#[derive(Clone, Copy, Debug, PartialEq, Eq)]
pub struct Session {
    pub browser_window: u128,
    pub browser_count: u32,
    pub refresh_at: u128,
    pub refreshing: bool,
    pub game_port_v4: u16,
    pub game_port_v6: u16,
}

/// The browser window is over.
pub open spec fn window_over(s: Session, now: u128) -> bool {
    now - s.browser_window > SECOND
}

/// The earliest of two times, of which any may be missing.
pub open spec fn earliest(a: Option<int>, b: Option<int>) -> Option<int> {
    match (a, b) {
        (Some(x), Some(y)) => Some(
            if x < y {
                x
            } else {
                y
            },
        ),
        (Some(x), None) => Some(x),
        (None, b) => b,
    }
}

/// The time at which the first idle client times out.
pub open spec fn idle_deadline(last_packets: Seq<u64>, idle_seconds: u64) -> Option<int>
    decreases last_packets.len(),
{
    if last_packets.len() == 0 {
        None
    } else {
        earliest(
            idle_deadline(last_packets.drop_last(), idle_seconds),
            Some(last_packets.last() + idle_seconds * SECOND),
        )
    }
}

/// A client has been silent for too long.
pub open spec fn timed_out(last_packet: u64, now: u128, idle_seconds: u64) -> bool {
    now - last_packet >= idle_seconds * SECOND
}

/// Tells whether a client has been silent for too long.
pub fn is_timed_out(last_packet: u64, now: u128, idle_seconds: u64) -> (r: bool)
    ensures
        r == timed_out(last_packet, now, idle_seconds),
{
    let limit: u128 = idle_seconds as u128 * SECOND;
    now >= last_packet as u128 && now - last_packet as u128 >= limit
}

/// What a round does about a client.
#[derive(Clone, Copy, Debug, PartialEq, Eq, Structural)]
pub enum RoundStart {
    /// It has been silent for too long.
    TimedOut,
    /// It has not said anything yet.
    Wait,
    /// What the backend sent for it is handled.
    Go,
}

/// Decides what a round does about a client.
pub fn round_start(transport_ready: bool, last_packet: u64, now: u128, idle_seconds: u64) -> (r:
    RoundStart)
    ensures
        r == if timed_out(last_packet, now, idle_seconds) {
            RoundStart::TimedOut
        } else if !transport_ready {
            RoundStart::Wait
        } else {
            RoundStart::Go
        },
{
    if is_timed_out(last_packet, now, idle_seconds) {
        RoundStart::TimedOut
    } else if !transport_ready {
        RoundStart::Wait
    } else {
        RoundStart::Go
    }
}

/// Tells whether one more client may connect.
pub fn admits(clients: usize, max_connections: usize) -> (r: bool)
    ensures
        r == (clients < max_connections),
{
    clients < max_connections
}

impl Session {
    /// The state at the start, with the ports that the backend announced.
    pub fn new(now: u128, game_port_v4: u16, game_port_v6: u16) -> (r: Self)
        ensures
            r == (Session {
                browser_window: now,
                browser_count: 0,
                refresh_at: now,
                refreshing: false,
                game_port_v4,
                game_port_v6,
            }),
    {
        Session {
            browser_window: now,
            browser_count: 0,
            refresh_at: now,
            refreshing: false,
            game_port_v4,
            game_port_v6,
        }
    }

    /// The port that the backend serves a protocol family on.
    pub fn game_port(&self, ipv4: bool) -> (r: u16)
        ensures
            r == if ipv4 {
                self.game_port_v4
            } else {
                self.game_port_v6
            },
    {
        if ipv4 {
            self.game_port_v4
        } else {
            self.game_port_v6
        }
    }

    /// Starts to ask the backend about itself if that is due. Returns whether
    /// it is.
    pub fn start_refresh(&mut self, now: u128) -> (due: bool)
        ensures
            due == (now - old(self).refresh_at > REFRESH_SECONDS * SECOND && !old(
                self,
            ).refreshing),
            *final(self) == if due {
                Session { refresh_at: now, refreshing: true, ..*old(self) }
            } else {
                *old(self)
            },
    {
        if now > self.refresh_at && now - self.refresh_at > REFRESH_SECONDS * SECOND
            && !self.refreshing {
            self.refresh_at = now;
            self.refreshing = true;
            true
        } else {
            false
        }
    }

    /// Takes note of what the backend says about itself, or that it does not
    /// answer. Its ports must stay the same.
    pub fn refreshed(&mut self, ports: Option<(u16, u16)>) -> (r: Result<(), SessionError>)
        ensures
            r == if ports matches Some(p) && p != (old(self).game_port_v4, old(
                self,
            ).game_port_v6) {
                Err::<(), SessionError>(SessionError::PortsChanged)
            } else {
                Ok::<(), SessionError>(())
            },
            *final(self) == (Session { refreshing: false, ..*old(self) }),
    {
        self.refreshing = false;
        if let Some((v4, v6)) = ports {
            if v4 != self.game_port_v4 || v6 != self.game_port_v6 {
                return Err(SessionError::PortsChanged);
            }
        }
        Ok(())
    }

    /// Starts a new browser window if the last one is over.
    pub fn start_round(&mut self, now: u128)
        ensures
            *final(self) == if window_over(*old(self), now) {
                Session { browser_window: now, browser_count: 0, ..*old(self) }
            } else {
                *old(self)
            },
    {
        if now > self.browser_window && now - self.browser_window > SECOND {
            self.browser_window = now;
            self.browser_count = 0;
        }
    }

    /// Tells whether one more browser is answered, and counts it.
    pub fn answer_browser(&mut self) -> (r: bool)
        ensures
            r == (old(self).browser_count < BROWSERS_PER_SECOND),
            *final(self) == if r {
                Session { browser_count: (old(self).browser_count + 1) as u32, ..*old(self) }
            } else {
                *old(self)
            },
    {
        if self.browser_count < BROWSERS_PER_SECOND {
            self.browser_count += 1;
            true
        } else {
            false
        }
    }

    /// The time until which nothing needs to be done unless something
    /// arrives: the next refresh, the next step of the transport and the
    /// first timeout, whichever comes first.
    pub fn deadline(
        &self,
        transport: Option<u64>,
        last_packets: &Vec<u64>,
        idle_seconds: u64,
    ) -> (r: Option<u128>)
        requires
            self.refresh_at + REFRESH_SECONDS * SECOND <= u128::MAX,
        ensures
            ({
                let refresh = if self.refreshing {
                    None
                } else {
                    Some(self.refresh_at + REFRESH_SECONDS * SECOND)
                };
                let step = match transport {
                    Some(t) => Some(t as int),
                    None => None,
                };
                let all = earliest(
                    earliest(refresh, step),
                    idle_deadline(last_packets@, idle_seconds),
                );
                match r {
                    Some(t) => all == Some(t as int),
                    None => all is None,
                }
            }),
    {
        let mut first: Option<u128> = if self.refreshing {
            None
        } else {
            Some(self.refresh_at + REFRESH_SECONDS * SECOND)
        };
        if let Some(t) = transport {
            first = Some(
                match first {
                    Some(f) if f < t as u128 => f,
                    _ => t as u128,
                },
            );
        }
        let ghost start = match first {
            Some(t) => Some(t as int),
            None => None,
        };
        let mut i: usize = 0;
        while i < last_packets.len()
            invariant
                i <= last_packets.len(),
                ({
                    let all = earliest(
                        start,
                        idle_deadline(last_packets@.take(i as int), idle_seconds),
                    );
                    match first {
                        Some(t) => all == Some(t as int),
                        None => all is None,
                    }
                }),
            decreases last_packets.len() - i,
        {
            assert(last_packets@.take(i + 1).drop_last() =~= last_packets@.take(i as int));
            assert(idle_seconds * SECOND <= 0xffff_ffff_ffff_ffff * 1_000_000_000) by (
                nonlinear_arith)
                requires
                    idle_seconds <= 0xffff_ffff_ffff_ffff,
                    SECOND == 1_000_000_000,
            ;
            let idle: u128 = last_packets[i] as u128 + idle_seconds as u128 * SECOND;
            first = Some(
                match first {
                    Some(f) if f < idle => f,
                    _ => idle,
                },
            );
            i += 1;
        }
        assert(last_packets@.take(i as int) =~= last_packets@);
        first
    }
}

/// The bytes of a reason that a client is told.
pub fn disconnect_reason(reason: &str) -> (r: Vec<u8>)
    ensures
        r@ == encode_utf8(reason@).take(
            if encode_utf8(reason@).len() < MAX_REASON {
                encode_utf8(reason@).len() as int
            } else {
                MAX_REASON as int
            },
        ),
{
    let bytes = reason.as_bytes();
    let n: usize = if bytes.len() < MAX_REASON {
        bytes.len()
    } else {
        MAX_REASON
    };
    let r = vstd::slice::slice_to_vec(vstd::slice::slice_subrange(bytes, 0, n));
    assert(r@ =~= encode_utf8(reason@).take(n as int));
    r
}

/// The number of browsers that are answered out of so many requests in one
/// window.
pub open spec fn browsers_answered(s: Session, requests: nat) -> nat
    decreases requests,
{
    if requests == 0 {
        0
    } else if s.browser_count < BROWSERS_PER_SECOND {
        1 + browsers_answered(
            (Session { browser_count: (s.browser_count + 1) as u32, ..s }),
            (requests - 1) as nat,
        )
    } else {
        browsers_answered(s, (requests - 1) as nat)
    }
}

/// In one window at most 20 browsers are answered, however many ask.
pub proof fn browser_answers_are_limited(s: Session, requests: nat)
    requires
        s.browser_count <= BROWSERS_PER_SECOND,
    ensures
        browsers_answered(s, requests) + s.browser_count <= BROWSERS_PER_SECOND,
    decreases requests,
{
    if requests > 0 {
        if s.browser_count < BROWSERS_PER_SECOND {
            browser_answers_are_limited(
                (Session { browser_count: (s.browser_count + 1) as u32, ..s }),
                (requests - 1) as nat,
            );
        } else {
            browser_answers_are_limited(s, (requests - 1) as nat);
        }
    }
}

/// The limits pass exactly if none of them is zero.
pub proof fn limits_pass_unless_one_is_zero(
    connections: u64,
    connect: u64,
    idle: u64,
    r: Result<(), SessionError>,
)
    requires
        call_ensures(check_limits, (connections, connect, idle), r),
    ensures
        r is Ok <==> connections > 0 && connect > 0 && idle > 0,
        r matches Err(e) ==> (e == SessionError::NoConnections <==> connections == 0) && (e
            == SessionError::NoTimeouts <==> connections > 0),
{
}

/// A client times out once it has been silent for the whole limit, and stays
/// timed out.
pub proof fn silence_times_out(last: u64, now: u128, idle: u64, r: bool, later: u128, r2: bool)
    requires
        call_ensures(is_timed_out, (last, now, idle), r),
        call_ensures(is_timed_out, (last, later, idle), r2),
        now <= later,
    ensures
        r <==> now >= last + idle * 1_000_000_000,
        r ==> r2,
{
}

/// A round goes on for a client exactly if it is ready and has not timed out.
pub proof fn rounds_go_on_for_ready_clients(
    ready: bool,
    last: u64,
    now: u128,
    idle: u64,
    r: RoundStart,
    silent: bool,
)
    requires
        call_ensures(round_start, (ready, last, now, idle), r),
        call_ensures(is_timed_out, (last, now, idle), silent),
    ensures
        r == RoundStart::TimedOut <==> silent,
        r == RoundStart::Go <==> ready && !silent,
        r == RoundStart::Wait <==> !ready && !silent,
{
}

/// One more client is let in exactly while that does not exceed the limit.
pub proof fn clients_are_let_in_up_to_the_limit(clients: usize, limit: usize, r: bool)
    requires
        call_ensures(admits, (clients, limit), r),
    ensures
        r <==> clients + 1 <= limit,
{
}

/// A new session serves the ports that it was given, refreshes nothing yet,
/// and has answered no browser.
pub proof fn sessions_start_afresh(now: u128, v4: u16, v6: u16, s: Session, p4: u16, p6: u16)
    requires
        call_ensures(Session::new, (now, v4, v6), s),
        call_ensures(Session::game_port, (&s, true), p4),
        call_ensures(Session::game_port, (&s, false), p6),
    ensures
        p4 == v4,
        p6 == v6,
        !s.refreshing,
        s.refresh_at == now,
        s.browser_window == now,
        s.browser_count == 0,
{
}

/// A refresh starts exactly if more than ten seconds have passed and none is
/// under way. Nothing else changes.
pub proof fn refreshes_start_after_ten_seconds(s: &mut Session, now: u128, due: bool)
    requires
        call_ensures(Session::start_refresh, (s, now), due),
    ensures
        due <==> !old(s).refreshing && now > old(s).refresh_at + 10_000_000_000,
        due ==> final(s).refreshing && final(s).refresh_at == now,
        !due ==> final(s).refreshing == old(s).refreshing && final(s).refresh_at
            == old(s).refresh_at,
        final(s).browser_window == old(s).browser_window,
        final(s).browser_count == old(s).browser_count,
        final(s).game_port_v4 == old(s).game_port_v4,
        final(s).game_port_v6 == old(s).game_port_v6,
{
}

/// An answer ends the refresh, and only other ports are an error.
pub proof fn only_changed_ports_end_the_session(
    s: &mut Session,
    ports: Option<(u16, u16)>,
    r: Result<(), SessionError>,
)
    requires
        call_ensures(Session::refreshed, (s, ports), r),
    ensures
        !final(s).refreshing,
        final(s).refresh_at == old(s).refresh_at,
        ports is None ==> r is Ok,
        ports matches Some((v4, v6)) ==> (r is Ok <==> v4 == old(s).game_port_v4 && v6
            == old(s).game_port_v6),
        r matches Err(e) ==> e == SessionError::PortsChanged,
        final(s).game_port_v4 == old(s).game_port_v4,
        final(s).game_port_v6 == old(s).game_port_v6,
        final(s).browser_window == old(s).browser_window,
        final(s).browser_count == old(s).browser_count,
{
}

/// A window of browsers lasts for a second. Then a new one starts at zero.
pub proof fn windows_last_for_a_second(s: &mut Session, now: u128)
    requires
        call_ensures(Session::start_round, (s, now), ()),
    ensures
        now > old(s).browser_window + 1_000_000_000 ==> final(s).browser_window == now
            && final(s).browser_count == 0,
        now <= old(s).browser_window + 1_000_000_000 ==> final(s).browser_window
            == old(s).browser_window && final(s).browser_count == old(s).browser_count,
        final(s).refreshing == old(s).refreshing,
        final(s).refresh_at == old(s).refresh_at,
        final(s).game_port_v4 == old(s).game_port_v4,
        final(s).game_port_v6 == old(s).game_port_v6,
{
}

/// A browser is answered exactly if fewer than twenty were, and is counted.
pub proof fn twenty_browsers_are_answered(s: &mut Session, r: bool)
    requires
        call_ensures(Session::answer_browser, (s,), r),
    ensures
        r <==> old(s).browser_count < 20,
        r ==> final(s).browser_count == old(s).browser_count + 1,
        !r ==> final(s).browser_count == old(s).browser_count,
        final(s).browser_window == old(s).browser_window,
        final(s).refreshing == old(s).refreshing,
        final(s).refresh_at == old(s).refresh_at,
        final(s).game_port_v4 == old(s).game_port_v4,
        final(s).game_port_v6 == old(s).game_port_v6,
{
}

proof fn lemma_idle_deadline(last: Seq<u64>, idle: u64)
    ensures
        match idle_deadline(last, idle) {
            None => last.len() == 0,
            Some(t) => {
                &&& exists|i: int|
                    0 <= i < last.len() && t == #[trigger] last[i] + idle * SECOND
                &&& forall|i: int| 0 <= i < last.len() ==> t <= #[trigger] last[i] + idle * SECOND
            },
        },
    decreases last.len(),
{
    if last.len() > 0 {
        let head = last.drop_last();
        lemma_idle_deadline(head, idle);
        let t = idle_deadline(last, idle)->0;
        let end = last[last.len() - 1] + idle * SECOND;
        assert forall|i: int| 0 <= i < last.len() implies t <= #[trigger] last[i] + idle
            * SECOND by {
            if i < head.len() {
                assert(head[i] == last[i]);
            }
        }
        if t != end {
            let i = choose|i: int| 0 <= i < head.len() && t == #[trigger] head[i] + idle * SECOND;
            assert(last[i] == head[i]);
        }
    }
}

/// The deadline is the first of the times at which something is due: no time
/// is before it, and it is one of them.
pub proof fn deadline_is_the_first_due_time(
    s: &Session,
    transport: Option<u64>,
    last: &Vec<u64>,
    idle: u64,
    r: Option<u128>,
)
    requires
        s.refresh_at + 10_000_000_000 <= u128::MAX,
        call_ensures(Session::deadline, (s, transport, last, idle), r),
    ensures
        r is None <==> s.refreshing && transport is None && last@.len() == 0,
        r matches Some(t) ==> {
            &&& !s.refreshing ==> t <= s.refresh_at + 10_000_000_000
            &&& transport matches Some(step) ==> t <= step
            &&& forall|i: int|
                0 <= i < last@.len() ==> t <= #[trigger] last@[i] + idle * 1_000_000_000
            &&& {
                ||| !s.refreshing && t == s.refresh_at + 10_000_000_000
                ||| transport matches Some(step) && t == step
                ||| exists|i: int|
                    0 <= i < last@.len() && t == #[trigger] last@[i] + idle * 1_000_000_000
            }
        },
{
    lemma_idle_deadline(last@, idle);
}

/// A client is told the first 127 bytes of the reason.
pub proof fn reasons_are_told_up_to_the_limit(reason: &str, r: Vec<u8>)
    requires
        call_ensures(disconnect_reason, (reason,), r),
    ensures
        r@.len() <= 127,
        r@.len() == encode_utf8(reason@).len() || (r@.len() == 127 && encode_utf8(reason@).len()
            > 127),
        r@.is_prefix_of(encode_utf8(reason@)),
{
}

} // verus!
