//! The finite state machine of a session: what each event does in each
//! state, the timers, and the connection life cycle.
use vstd::prelude::*;
use crate::net::IpAddress;
use crate::nlri::Nlri;
use crate::rib::RouteAttributes;
use crate::session::{BGPNeighbor, BGPSessionAttributes, BGPState, Event};

verus! {

/// What the session is to send after an event.
#[derive(Debug)]
pub enum FsmAction {
    Nothing,
    SendOpen,
    SendKeepalive,
    SendUpdate(Vec<(Nlri, Option<RouteAttributes>)>),
}

/// The neighbor with its session attributes replaced.
pub open spec fn with_attributes(nb: BGPNeighbor, a: BGPSessionAttributes) -> BGPNeighbor {
    BGPNeighbor { attributes: a, ..nb }
}

/// The neighbor once the session starts: connect retry counter zero,
/// state Active.
pub open spec fn started(nb: BGPNeighbor) -> BGPNeighbor {
    with_attributes(
        nb,
        BGPSessionAttributes {
            connect_retry_counter: 0,
            state: BGPState::Active,
            ..nb.attributes
        },
    )
}

/// The neighbor in state `s`.
pub open spec fn in_state(nb: BGPNeighbor, s: BGPState) -> BGPNeighbor {
    with_attributes(nb, BGPSessionAttributes { state: s, ..nb.attributes })
}

impl BGPNeighbor {
    /// Starts the session (see [`started`]).
    pub fn init_peer(&mut self)
        ensures
            *final(self) == started(*old(self)),
    {
        self.attributes.connect_retry_counter = 0;
        self.attributes.state = BGPState::Active;
    }

    /// An event in state Idle without a connection: an automatic start
    /// starts the session; anything else does nothing.
    pub fn process_event_idle(&mut self, e: Event) -> (r: FsmAction)
        ensures
            r is Nothing,
            e is AutomaticStart ==> *final(self) == started(*old(self)),
            !(e is AutomaticStart) ==> *final(self) == *old(self),
    {
        match e {
            Event::AutomaticStart => {
                self.init_peer();
            },
            _ => {},
        }
        FsmAction::Nothing
    }

    /// An event in state Connect: the keepalive timer or a manual start
    /// sends a KEEPALIVE; an automatic start starts the session; a valid
    /// connection sends the OPEN and moves to OpenSent.
    pub fn process_event_connect(&mut self, e: Event) -> (r: FsmAction)
        ensures
            (e is KeepaliveTimerExpires || e is ManualStart) ==> r is SendKeepalive && *final(self)
                == *old(self),
            e is AutomaticStart ==> r is Nothing && *final(self) == started(*old(self)),
            e is TcpConnectionValid ==> r is SendOpen && *final(self) == in_state(
                *old(self),
                BGPState::OpenSent,
            ),
            !(e is KeepaliveTimerExpires || e is ManualStart || e is AutomaticStart
                || e is TcpConnectionValid) ==> r is Nothing && *final(self) == *old(self),
    {
        match e {
            Event::KeepaliveTimerExpires => FsmAction::SendKeepalive,
            Event::ManualStart => FsmAction::SendKeepalive,
            Event::AutomaticStart => {
                self.init_peer();
                FsmAction::Nothing
            },
            Event::TcpConnectionValid => {
                self.attributes.state = BGPState::OpenSent;
                FsmAction::SendOpen
            },
            _ => FsmAction::Nothing,
        }
    }

    /// An event in state Active: a confirmed connection sends the OPEN and
    /// moves to OpenSent; anything else does nothing.
    pub fn process_event_active(&mut self, e: Event) -> (r: FsmAction)
        ensures
            e is TcpConnectionConfirmed ==> r is SendOpen && *final(self) == in_state(
                *old(self),
                BGPState::OpenSent,
            ),
            !(e is TcpConnectionConfirmed) ==> r is Nothing && *final(self) == *old(self),
    {
        match e {
            Event::TcpConnectionConfirmed => {
                self.attributes.state = BGPState::OpenSent;
                FsmAction::SendOpen
            },
            _ => FsmAction::Nothing,
        }
    }

    /// An event in state OpenSent does nothing.
    pub fn process_event_opensent(&mut self, e: Event) -> (r: FsmAction)
        ensures
            r is Nothing,
            *final(self) == *old(self),
    {
        FsmAction::Nothing
    }

    /// An event in state OpenConfirm: the keepalive timer sends a
    /// KEEPALIVE; `BGPOpen` sends the OPEN; anything else does nothing.
    pub fn process_event_openconfirm(&mut self, e: Event) -> (r: FsmAction)
        ensures
            *final(self) == *old(self),
            e is KeepaliveTimerExpires ==> r is SendKeepalive,
            e is BGPOpen ==> r is SendOpen,
            !(e is KeepaliveTimerExpires || e is BGPOpen) ==> r is Nothing,
    {
        match e {
            Event::KeepaliveTimerExpires => FsmAction::SendKeepalive,
            Event::BGPOpen => FsmAction::SendOpen,
            _ => FsmAction::Nothing,
        }
    }

    /// An event in state Established: the keepalive timer sends a
    /// KEEPALIVE; changes of the local RIB are sent in an UPDATE; anything
    /// else does nothing.
    pub fn process_event_established(&mut self, e: Event) -> (r: FsmAction)
        ensures
            *final(self) == *old(self),
            e is KeepaliveTimerExpires ==> r is SendKeepalive,
            (e matches Event::RibUpdate(v) ==> (r matches FsmAction::SendUpdate(w) && w@ == v@)),
            !(e is KeepaliveTimerExpires || e is RibUpdate) ==> r is Nothing,
    {
        match e {
            Event::KeepaliveTimerExpires => FsmAction::SendKeepalive,
            Event::RibUpdate(v) => FsmAction::SendUpdate(v),
            _ => FsmAction::Nothing,
        }
    }

    /// An event for the session, handled as its state says. With a
    /// connection, states Active, Connect, OpenSent, OpenConfirm and
    /// Established handle it (see their functions) and Idle ignores it;
    /// without one, only Idle handles it.
    pub fn process_event(&mut self, e: Event, connected: bool) -> (r: FsmAction)
        ensures
            connected && old(self).attributes.state == BGPState::Active ==> (
            (e is TcpConnectionConfirmed ==> r is SendOpen && *final(self) == in_state(
                *old(self),
                BGPState::OpenSent,
            )) && (!(e is TcpConnectionConfirmed) ==> r is Nothing && *final(self) == *old(self))),
            connected && old(self).attributes.state == BGPState::Connect ==> (((e is KeepaliveTimerExpires
                || e is ManualStart) ==> r is SendKeepalive && *final(self) == *old(self)) && (
            e is AutomaticStart ==> r is Nothing && *final(self) == started(*old(self))) && (
            e is TcpConnectionValid ==> r is SendOpen && *final(self) == in_state(
                *old(self),
                BGPState::OpenSent,
            )) && (!(e is KeepaliveTimerExpires || e is ManualStart || e is AutomaticStart
                || e is TcpConnectionValid) ==> r is Nothing && *final(self) == *old(self))),
            connected && old(self).attributes.state == BGPState::OpenSent ==> r is Nothing
                && *final(self) == *old(self),
            connected && old(self).attributes.state == BGPState::OpenConfirm ==> (*final(self)
                == *old(self) && (e is KeepaliveTimerExpires ==> r is SendKeepalive) && (
            e is BGPOpen ==> r is SendOpen) && (!(e is KeepaliveTimerExpires || e is BGPOpen)
                ==> r is Nothing)),
            connected && old(self).attributes.state == BGPState::Established ==> (*final(self)
                == *old(self) && (e is KeepaliveTimerExpires ==> r is SendKeepalive) && (
            e matches Event::RibUpdate(v) ==> (r matches FsmAction::SendUpdate(w) && w@ == v@))
                && (!(e is KeepaliveTimerExpires || e is RibUpdate) ==> r is Nothing)),
            connected && old(self).attributes.state == BGPState::Idle ==> r is Nothing
                && *final(self) == *old(self),
            !connected && old(self).attributes.state == BGPState::Idle ==> (r is Nothing && (
            e is AutomaticStart ==> *final(self) == started(*old(self))) && (!(e is AutomaticStart)
                ==> *final(self) == *old(self))),
            !connected && old(self).attributes.state != BGPState::Idle ==> r is Nothing
                && *final(self) == *old(self),
    {
        if connected {
            match self.attributes.state {
                BGPState::Active => self.process_event_active(e),
                BGPState::Connect => self.process_event_connect(e),
                BGPState::OpenConfirm => self.process_event_openconfirm(e),
                BGPState::OpenSent => self.process_event_opensent(e),
                BGPState::Established => self.process_event_established(e),
                BGPState::Idle => FsmAction::Nothing,
            }
        } else {
            match self.attributes.state {
                BGPState::Idle => self.process_event_idle(e),
                _ => FsmAction::Nothing,
            }
        }
    }

    /// The connection attempt failed: the session goes Idle and one more
    /// failure is counted.
    pub fn connect_failed(&mut self)
        requires
            old(self).attributes.connect_retry_counter < usize::MAX,
        ensures
            *final(self) == with_attributes(
                *old(self),
                BGPSessionAttributes {
                    state: BGPState::Idle,
                    connect_retry_counter: (old(self).attributes.connect_retry_counter + 1) as usize,
                    ..old(self).attributes
                },
            ),
    {
        self.attributes.state = BGPState::Idle;
        self.attributes.connect_retry_counter = self.attributes.connect_retry_counter + 1;
    }

    /// The connection to the neighbor is up: state Connect, with the local
    /// end of the connection recorded.
    pub fn connected(&mut self, local_ip: IpAddress, local_port: u16)
        ensures
            *final(self) == (BGPNeighbor {
                local_ip: Some(local_ip),
                local_port: Some(local_port),
                ..in_state(*old(self), BGPState::Connect)
            }),
    {
        self.attributes.state = BGPState::Connect;
        self.local_ip = Some(local_ip);
        self.local_port = Some(local_port);
    }

    /// Whether a connection from the neighbor can be accepted: only while
    /// the session is not yet exchanging OPENs (Idle, Active or Connect).
    pub fn should_accept(&self) -> (r: bool)
        ensures
            r == (self.attributes.state == BGPState::Idle || self.attributes.state
                == BGPState::Active || self.attributes.state == BGPState::Connect),
    {
        match self.attributes.state {
            BGPState::Idle | BGPState::Active | BGPState::Connect => true,
            _ => false,
        }
    }

    /// A connection from the neighbor is accepted: state Active, with the
    /// local end of the connection recorded.
    pub fn accept_passive(&mut self, local_ip: IpAddress, local_port: u16)
        ensures
            *final(self) == (BGPNeighbor {
                local_ip: Some(local_ip),
                local_port: Some(local_port),
                ..in_state(*old(self), BGPState::Active)
            }),
    {
        self.local_ip = Some(local_ip);
        self.local_port = Some(local_port);
        self.attributes.state = BGPState::Active;
    }

    /// The session's connection is gone: state Idle.
    pub fn session_closed(&mut self)
        ensures
            *final(self) == in_state(*old(self), BGPState::Idle),
    {
        self.attributes.state = BGPState::Idle;
    }
}

/// What the keepalive timer does on a tick.
#[derive(Debug, Clone, Copy, PartialEq, Eq, Structural)]
pub enum KeepaliveTick {
    /// The session is Idle: the timer stops.
    Stop,
    /// The timer ran past the hold time: `KeepaliveTimerExpires` is to be
    /// posted.
    Expired,
    /// Nothing to do yet.
    Running,
}

impl BGPNeighbor {
    /// One second of the keepalive timer: the timer counts up; an Idle
    /// session stops it; a count past the hold time expires it.
    pub fn keepalive_tick(&mut self) -> (r: KeepaliveTick)
        requires
            old(self).attributes.keepalive_timer < usize::MAX,
        ensures
            *final(self) == with_attributes(
                *old(self),
                BGPSessionAttributes {
                    keepalive_timer: (old(self).attributes.keepalive_timer + 1) as usize,
                    ..old(self).attributes
                },
            ),
            old(self).attributes.state == BGPState::Idle ==> r is Stop,
            old(self).attributes.state != BGPState::Idle ==> (r is Expired <==> old(
                self,
            ).attributes.keepalive_timer + 1 > old(self).attributes.hold_time),
            old(self).attributes.state != BGPState::Idle ==> (r is Running <==> old(
                self,
            ).attributes.keepalive_timer + 1 <= old(self).attributes.hold_time),
    {
        self.attributes.keepalive_timer = self.attributes.keepalive_timer + 1;
        if self.attributes.state == BGPState::Idle {
            return KeepaliveTick::Stop;
        }
        if self.attributes.keepalive_timer > self.attributes.hold_time as usize {
            KeepaliveTick::Expired
        } else {
            KeepaliveTick::Running
        }
    }
}

/// The period, in seconds, at which the hold timer task posts
/// `KeepaliveTimerExpires`: a third of the hold time.
pub fn keepalive_interval(hold_time: u16) -> (r: u64)
    ensures
        r == hold_time / 3,
{
    hold_time as u64 / 3
}

/// The longest delay between connection attempts, in seconds.
pub const MAX_RETRY_DELAY: u64 = 3600;

/// The delay before a new connection attempt: the base delay; or, with
/// exponential backoff, the base doubled once per earlier attempt, capped
/// at [`MAX_RETRY_DELAY`].
pub open spec fn retry_delay(base: u64, attempt: u32, exponential: bool) -> int {
    if !exponential {
        base as int
    } else {
        let d = base as int * vstd::arithmetic::power2::pow2(attempt as nat) as int;
        if d > 3600 {
            3600
        } else {
            d
        }
    }
}

/// The delay before connection attempt `attempt` (see [`retry_delay`]).
pub fn calculate_retry_delay(base: u64, attempt: u32, exponential: bool) -> (r: u64)
    ensures
        r == retry_delay(base, attempt, exponential),
{
    if !exponential {
        return base;
    }
    let mut d: u64 = base;
    let mut k: u32 = 0;
    proof {
        vstd::arithmetic::power2::lemma2_to64();
    }
    while k < attempt
        invariant
            k <= attempt,
            d <= MAX_RETRY_DELAY || k == 0,
            d as int == base as int * vstd::arithmetic::power2::pow2(k as nat) as int || (d
                == MAX_RETRY_DELAY && base as int * vstd::arithmetic::power2::pow2(k as nat) as int
                > 3600),
        decreases attempt - k,
    {
        proof {
            vstd::arithmetic::power2::lemma_pow2_unfold((k + 1) as nat);
            let p = vstd::arithmetic::power2::pow2(k as nat);
            let q = vstd::arithmetic::power2::pow2((k + 1) as nat);
            let b = base as int;
            assert(b * q == 2 * (b * p)) by (nonlinear_arith)
                requires
                    q == 2 * p,
            ;
        }
        if d > MAX_RETRY_DELAY / 2 {
            d = MAX_RETRY_DELAY;
        } else {
            d = d * 2;
        }
        k = k + 1;
    }
    if d > MAX_RETRY_DELAY {
        MAX_RETRY_DELAY
    } else {
        d
    }
}

/// With exponential backoff the delay never exceeds [`MAX_RETRY_DELAY`];
/// without it, every attempt waits the base delay.
pub proof fn lemma_retry_delay_bounds(base: u64, attempt: u32, exponential: bool)
    ensures
        exponential ==> retry_delay(base, attempt, exponential) <= MAX_RETRY_DELAY,
        !exponential ==> retry_delay(base, attempt, exponential) == base,
{
}

/// What follows a failed connection attempt.
#[derive(Debug, Clone, Copy, PartialEq, Eq)]
pub enum RetryStep {
    /// The attempts allowed are spent: stop trying.
    GiveUp,
    /// Wait `delay` seconds, then make attempt `next_attempt`.
    Wait { delay: u64, next_attempt: u32 },
}

/// The step after failed connection attempt `attempt` (counted from zero):
/// give up where a maximum retry count is set and `attempt` has reached
/// it; else wait the retry delay and count one more attempt (the count
/// stays at its largest value once there).
pub fn after_failed_connect(base: u64, attempt: u32, max_retry_count: Option<u16>, exponential: bool) -> (r: RetryStep)
    ensures
        (r == RetryStep::GiveUp) <==> (max_retry_count matches Some(m) && attempt >= m),
        r matches RetryStep::Wait { delay, next_attempt } ==> delay == retry_delay(
            base,
            attempt,
            exponential,
        ) && next_attempt == if attempt < u32::MAX {
            attempt + 1
        } else {
            attempt as int
        },
{
    if let Some(m) = max_retry_count {
        if attempt >= m as u32 {
            return RetryStep::GiveUp;
        }
    }
    let delay = calculate_retry_delay(base, attempt, exponential);
    let next_attempt = if attempt < u32::MAX {
        attempt + 1
    } else {
        attempt
    };
    RetryStep::Wait { delay, next_attempt }
}

} // verus!
