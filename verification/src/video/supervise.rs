//! Supervision of camera sessions: on demand, always on, and the standby frames
//! that keep the virtual webcam visible in between.

use vstd::prelude::*;

use crate::recovery::{action_spec, counted, Action, Attempts, MAX_ATTEMPTS};
use crate::video::live::LiveExit;

verus! {

/// Interval between standby frames, in nanoseconds (100 ms). Just frequent enough
/// to keep the loopback a negotiable capture device for a connecting consumer.
pub const STANDBY_PERIOD: u64 = 100_000_000;

/// Requested ISP backend. `Auto` prefers the GPU and falls back to the CPU; `Cpu`
/// forces the CPU path; `Gpu` forces the GPU and fails if it cannot be
/// initialised.
#[derive(Debug, Clone, Copy, PartialEq, Eq, Structural)]
pub enum Backend {
    Auto,
    Cpu,
    Gpu,
}

/// The engine a request resolves to.
#[derive(Debug, Clone, Copy, PartialEq, Eq, Structural)]
pub enum EngineChoice {
    Gpu,
    /// The CPU, as requested.
    Cpu,
    /// The CPU, because the GPU is unavailable.
    CpuFallback,
    /// The GPU was required and is unavailable.
    Fail,
}

/// Is the GPU tried at all?
pub fn tries_gpu(backend: Backend) -> (r: bool)
    ensures
        r == (backend != Backend::Cpu),
{
    match backend {
        Backend::Cpu => false,
        _ => true,
    }
}

/// Resolve the requested backend, given whether the GPU could be initialised.
pub fn choose_engine(backend: Backend, gpu_ok: bool) -> (c: EngineChoice)
    ensures
        c == (match backend {
            Backend::Cpu => EngineChoice::Cpu,
            Backend::Auto => if gpu_ok {
                EngineChoice::Gpu
            } else {
                EngineChoice::CpuFallback
            },
            Backend::Gpu => if gpu_ok {
                EngineChoice::Gpu
            } else {
                EngineChoice::Fail
            },
        }),
{
    match backend {
        Backend::Cpu => EngineChoice::Cpu,
        Backend::Auto => if gpu_ok {
            EngineChoice::Gpu
        } else {
            EngineChoice::CpuFallback
        },
        Backend::Gpu => if gpu_ok {
            EngineChoice::Gpu
        } else {
            EngineChoice::Fail
        },
    }
}

/// On-demand camera gating. `Auto` runs the camera only while a consumer captures
/// where the client-usage event is available, else always; `On` is the same but
/// warns about the fallback; `Off` always streams.
#[derive(Debug, Clone, Copy, PartialEq, Eq, Structural)]
pub enum OnDemandMode {
    Auto,
    On,
    Off,
}

/// How sessions are run.
#[derive(Debug, Clone, Copy, PartialEq, Eq, Structural)]
pub enum Gating {
    /// Only while a consumer captures.
    OnDemand,
    /// Always, as requested.
    AlwaysOn,
    /// Always, because the event is unavailable; a note says so.
    FallbackNoted,
    /// Always, though gating was asked for; a warning says so.
    FallbackWarned,
}

/// Resolve the gating, given whether the client-usage event could be subscribed
/// to (it is not tried when gating is off).
pub fn choose_gating(mode: OnDemandMode, subscribed: bool) -> (g: Gating)
    ensures
        g == (match mode {
            OnDemandMode::Off => Gating::AlwaysOn,
            _ => if subscribed {
                Gating::OnDemand
            } else if mode == OnDemandMode::On {
                Gating::FallbackWarned
            } else {
                Gating::FallbackNoted
            },
        }),
{
    match mode {
        OnDemandMode::Off => Gating::AlwaysOn,
        OnDemandMode::On => if subscribed {
            Gating::OnDemand
        } else {
            Gating::FallbackWarned
        },
        OnDemandMode::Auto => if subscribed {
            Gating::OnDemand
        } else {
            Gating::FallbackNoted
        },
    }
}

/// What polling for a client-usage event gave.
#[derive(Debug, Clone, Copy, PartialEq, Eq, Structural)]
pub enum Polled {
    /// An event: a consumer is, or no consumer is, capturing.
    Event(bool),
    /// No event is pending.
    Empty,
    /// Polling failed.
    Failed,
}

/// The last state seen once a poll gave `p`.
pub open spec fn taken(last: Option<bool>, p: Polled) -> Option<bool> {
    match p {
        Polled::Event(active) => Some(active),
        _ => last,
    }
}

/// The last state seen after a run of polls.
pub open spec fn drained(ps: Seq<Polled>) -> Option<bool>
    decreases ps.len(),
{
    if ps.len() == 0 {
        None
    } else {
        taken(drained(ps.drop_last()), ps.last())
    }
}

/// Draining the pending client-usage events, folded to the last one: a disconnect
/// followed at once by a reconnect leaves the camera running instead of
/// triggering a needless stop and start.
#[derive(Debug, Clone, Copy, PartialEq, Eq, Structural)]
pub struct Drain {
    pub last: Option<bool>,
}

impl Drain {
    /// Nothing seen yet.
    pub fn new() -> (d: Self)
        ensures
            d.last == drained(Seq::empty()),
    {
        Drain { last: None }
    }

    /// Take in what a poll gave; the answer says whether to poll again.
    pub fn take(&mut self, p: Polled) -> (again: bool)
        ensures
            again == (p is Event),
            final(self).last == taken(old(self).last, p),
    {
        match p {
            Polled::Event(active) => {
                self.last = Some(active);
                true
            },
            _ => false,
        }
    }
}

/// Only the last pending event counts: draining events until none is left or
/// polling fails gives the last of them, and nothing when there were none.
pub proof fn law_last_event_wins(events: Seq<bool>, end: Polled)
    requires
        !(end is Event),
    ensures
        drained(events.map_values(|a: bool| Polled::Event(a)).push(end)) == (if events.len() == 0 {
            None
        } else {
            Some(events.last())
        }),
{
    let ps = events.map_values(|a: bool| Polled::Event(a));
    assert(ps.push(end).drop_last() =~= ps);
    assert(ps.push(end).last() == end);
    assert(drained(ps.push(end)) == drained(ps));
    if events.len() > 0 {
        assert(ps.last() == Polled::Event(events.last()));
        assert(drained(ps) == taken(drained(ps.drop_last()), ps.last()));
    }
}

/// What to do next while a session is being reopened.
#[derive(Debug, Clone, Copy, PartialEq, Eq, Structural)]
pub enum DwellStep {
    /// The consumer disconnected: there is nothing to reopen the camera for.
    Gone,
    /// The wait is over.
    Done,
    /// Write a standby frame and sleep this many nanoseconds.
    Write { sleep: u64 },
}

/// One step of feeding standby frames while waiting, given the last consumer
/// state seen and the nanoseconds left.
pub fn dwell_step(seen: Option<bool>, left: u64) -> (s: DwellStep)
    ensures
        s == (if seen == Some(false) {
            DwellStep::Gone
        } else if left == 0 {
            DwellStep::Done
        } else {
            DwellStep::Write {
                sleep: if left < STANDBY_PERIOD {
                    left
                } else {
                    STANDBY_PERIOD
                },
            }
        }),
{
    let gone: bool = match seen {
        Some(active) => !active,
        None => false,
    };
    if gone {
        DwellStep::Gone
    } else if left == 0 {
        DwellStep::Done
    } else {
        DwellStep::Write {
            sleep: if left < STANDBY_PERIOD {
                left
            } else {
                STANDBY_PERIOD
            },
        }
    }
}

/// What the on-demand supervisor waits for.
#[derive(Debug, Clone, Copy, PartialEq, Eq, Structural)]
pub enum Waiting {
    /// The consumer events, drained, while idle.
    Consumer,
    /// The outcome of writing a standby frame while idle.
    Standby,
    /// The end of a session.
    Session,
    /// The end of a pause before reopening.
    Dwell,
    /// Nothing: the daemon stops.
    Over,
}

/// What happened to the on-demand supervisor.
#[derive(Debug, Clone, Copy, PartialEq, Eq, Structural)]
pub enum Happened {
    /// The consumer events were drained; the last state seen, if any.
    Drained(Option<bool>),
    /// A standby frame was written or could not be.
    StandbyWritten { ok: bool },
    /// A session ended.
    SessionEnded(LiveExit),
    /// The pause ended; whether the consumer is still there to be fed.
    Dwelled { stay: bool },
}

/// What the supervisor does next.
#[derive(Debug, Clone, Copy, PartialEq, Eq, Structural)]
pub enum Duty {
    /// Drain the consumer events.
    Drain,
    /// Write a standby frame, then sleep for the standby period.
    WriteStandby,
    /// Open a session and stream it.
    RunSession,
    /// Feed standby frames for this many seconds.
    Dwell { seconds: u64 },
    /// Stop the daemon, so that a service manager restarts it.
    Stop,
}

/// The on-demand supervisor: the loopback stays open so the virtual webcam is
/// visible, and the camera runs only while a consumer captures. A session lost
/// mid-stream is reopened instead of ending the daemon.
#[derive(Debug, Clone, Copy, PartialEq, Eq, Structural)]
pub struct OnDemand {
    pub waiting: Waiting,
    pub attempts: Attempts,
}

/// What `s` becomes, and what is done, when `h` happens.
pub open spec fn on_demand_spec(s: OnDemand, h: Happened) -> (OnDemand, Duty) {
    let idle = OnDemand { waiting: Waiting::Consumer, ..s };
    let over = OnDemand { waiting: Waiting::Over, ..s };
    match h {
        Happened::Drained(seen) => if seen == Some(true) {
            (
                OnDemand { waiting: Waiting::Session, attempts: (Attempts { count: 0 }) },
                Duty::RunSession,
            )
        } else {
            (OnDemand { waiting: Waiting::Standby, ..s }, Duty::WriteStandby)
        },
        Happened::StandbyWritten { ok } => if ok {
            (idle, Duty::Drain)
        } else {
            (over, Duty::Stop)
        },
        Happened::SessionEnded(exit) => match exit {
            LiveExit::Idle => (idle, Duty::Drain),
            LiveExit::Stop => (over, Duty::Stop),
            LiveExit::Lost { frames, .. } => {
                let attempts = Attempts { count: counted(s.attempts.count as int, frames) as u32 };
                match action_spec(attempts.count as int) {
                    Action::Retry(seconds) => (
                        OnDemand { waiting: Waiting::Dwell, attempts },
                        Duty::Dwell { seconds },
                    ),
                    Action::GiveUp => (
                        OnDemand { waiting: Waiting::Over, attempts },
                        Duty::Stop,
                    ),
                }
            },
        },
        Happened::Dwelled { stay } => if stay {
            (OnDemand { waiting: Waiting::Session, ..s }, Duty::RunSession)
        } else {
            (idle, Duty::Drain)
        },
    }
}

impl OnDemand {
    /// The count of losses is bounded; only a supervisor that is over has passed
    /// the bound.
    pub open spec fn wf(&self) -> bool {
        &&& self.attempts.count <= MAX_ATTEMPTS + 1
        &&& self.waiting != Waiting::Over ==> self.attempts.count <= MAX_ATTEMPTS
    }

    /// The supervisor waits for this.
    pub open spec fn expects(&self, h: Happened) -> bool {
        match (self.waiting, h) {
            (Waiting::Consumer, Happened::Drained(_)) => true,
            (Waiting::Standby, Happened::StandbyWritten { .. }) => true,
            (Waiting::Session, Happened::SessionEnded(_)) => true,
            (Waiting::Dwell, Happened::Dwelled { .. }) => true,
            _ => false,
        }
    }

    /// A supervisor about to start, idle, and what it does first.
    pub fn start() -> (r: (OnDemand, Duty))
        ensures
            r.0.wf(),
            r.0.waiting == Waiting::Consumer,
            r.0.attempts.count == 0,
            r.1 == Duty::Drain,
    {
        (OnDemand { waiting: Waiting::Consumer, attempts: Attempts::new() }, Duty::Drain)
    }

    /// Take in what happened and answer what to do next.
    pub fn next(&mut self, h: Happened) -> (duty: Duty)
        requires
            old(self).wf(),
            old(self).expects(h),
        ensures
            final(self).wf(),
            (*final(self), duty) == on_demand_spec(*old(self), h),
    {
        match h {
            Happened::Drained(seen) => {
                let here: bool = match seen {
                    Some(active) => active,
                    None => false,
                };
                if here {
                    self.waiting = Waiting::Session;
                    self.attempts = Attempts::new();
                    Duty::RunSession
                } else {
                    self.waiting = Waiting::Standby;
                    Duty::WriteStandby
                }
            },
            Happened::StandbyWritten { ok } => {
                if ok {
                    self.waiting = Waiting::Consumer;
                    Duty::Drain
                } else {
                    self.waiting = Waiting::Over;
                    Duty::Stop
                }
            },
            Happened::SessionEnded(exit) => match exit {
                LiveExit::Idle => {
                    self.waiting = Waiting::Consumer;
                    Duty::Drain
                },
                LiveExit::Stop => {
                    self.waiting = Waiting::Over;
                    Duty::Stop
                },
                LiveExit::Lost { reason: _, frames } => {
                    let mut attempts: Attempts = self.attempts;
                    let act: Action = attempts.lost(frames);
                    self.attempts = attempts;
                    match act {
                        Action::Retry(seconds) => {
                            self.waiting = Waiting::Dwell;
                            Duty::Dwell { seconds }
                        },
                        Action::GiveUp => {
                            self.waiting = Waiting::Over;
                            Duty::Stop
                        },
                    }
                },
            },
            Happened::Dwelled { stay } => {
                if stay {
                    self.waiting = Waiting::Session;
                    Duty::RunSession
                } else {
                    self.waiting = Waiting::Consumer;
                    Duty::Drain
                }
            },
        }
    }
}

/// A run of the supervisor: states, with what happened between them.
pub open spec fn is_supervised(st: Seq<OnDemand>, hs: Seq<Happened>) -> bool {
    &&& st.len() == hs.len() + 1
    &&& forall|i: int|
        0 <= i < hs.len() ==> #[trigger] st[i].expects(hs[i]) && st[i + 1] == on_demand_spec(
            st[i],
            hs[i],
        ).0
}

/// A consumer is there, as far as is known: one was seen to capture, and since
/// then neither a session nor a pause ended because it left.
pub open spec fn consumer_there(hs: Seq<Happened>) -> bool
    decreases hs.len(),
{
    if hs.len() == 0 {
        false
    } else {
        match hs.last() {
            Happened::Drained(seen) => seen == Some(true),
            Happened::SessionEnded(LiveExit::Idle) => false,
            Happened::Dwelled { stay: false } => false,
            _ => consumer_there(hs.drop_last()),
        }
    }
}

/// The camera runs only on demand: whenever a session is under way, or about to be
/// reopened, a consumer is there; while idle, none is.
pub proof fn law_camera_runs_only_on_demand(st: Seq<OnDemand>, hs: Seq<Happened>)
    requires
        is_supervised(st, hs),
        st[0].waiting == Waiting::Consumer,
    ensures
        st.last().waiting == Waiting::Session || st.last().waiting == Waiting::Dwell
            ==> consumer_there(hs),
        st.last().waiting == Waiting::Consumer || st.last().waiting == Waiting::Standby
            ==> !consumer_there(hs),
    decreases hs.len(),
{
    if hs.len() > 0 {
        let n = hs.len() - 1;
        lemma_supervised_prefix(st, hs);
        law_camera_runs_only_on_demand(st.drop_last(), hs.drop_last());
        assert(st.drop_last().last() == st[n]);
        assert(st[n].expects(hs[n]));
    }
}

/// A run without its last step is a run.
proof fn lemma_supervised_prefix(st: Seq<OnDemand>, hs: Seq<Happened>)
    requires
        is_supervised(st, hs),
        hs.len() > 0,
    ensures
        is_supervised(st.drop_last(), hs.drop_last()),
        st.drop_last()[0] == st[0],
{
    assert forall|i: int| 0 <= i < hs.drop_last().len() implies #[trigger] st.drop_last()[i].expects(
        hs.drop_last()[i],
    ) && st.drop_last()[i + 1] == on_demand_spec(st.drop_last()[i], hs.drop_last()[i]).0 by {
        assert(st[i].expects(hs[i]));
    }
}

/// Frameless losses since the last session that delivered frames, or since the
/// consumer connected.
pub open spec fn losses(hs: Seq<Happened>) -> int
    decreases hs.len(),
{
    if hs.len() == 0 {
        0
    } else {
        match hs.last() {
            Happened::Drained(Some(true)) => 0,
            Happened::SessionEnded(LiveExit::Lost { frames, .. }) => if frames > 0 {
                1
            } else {
                losses(hs.drop_last()) + 1
            },
            _ => losses(hs.drop_last()),
        }
    }
}

/// A camera that is truly gone does not spin: the supervisor never has more than
/// `MAX_ATTEMPTS` losses behind it without stopping.
pub proof fn law_losses_are_bounded(st: Seq<OnDemand>, hs: Seq<Happened>)
    requires
        is_supervised(st, hs),
        st[0].wf(),
        st[0].attempts.count == 0,
    ensures
        st.last().wf(),
        st.last().attempts.count == losses(hs),
        st.last().waiting != Waiting::Over ==> losses(hs) <= MAX_ATTEMPTS,
    decreases hs.len(),
{
    if hs.len() > 0 {
        let n = hs.len() - 1;
        lemma_supervised_prefix(st, hs);
        law_losses_are_bounded(st.drop_last(), hs.drop_last());
        assert(st.drop_last().last() == st[n]);
        assert(st[n].expects(hs[n]));
    }
}

/// What the always-on supervisor does after a session ended.
#[derive(Debug, Clone, Copy, PartialEq, Eq, Structural)]
pub enum Onward {
    /// Sleep this many seconds, then open a fresh session.
    Reopen { seconds: u64 },
    /// End the daemon cleanly.
    Finish,
    /// End the daemon as failed.
    Fail,
}

/// Always on: stream until a fatal error, reopening a lost session under the same
/// policy as on demand (there is no consumer to keep fed, so the pause is a plain
/// sleep).
pub fn always_on(attempts: &mut Attempts, exit: LiveExit) -> (next: Onward)
    requires
        old(attempts).count < u32::MAX,
    ensures
        match exit {
            LiveExit::Idle | LiveExit::Stop => next == Onward::Finish && *final(attempts) == *old(
                attempts,
            ),
            LiveExit::Lost { frames, .. } => {
                &&& final(attempts).count == counted(old(attempts).count as int, frames)
                &&& next == (match action_spec(final(attempts).count as int) {
                    Action::Retry(seconds) => Onward::Reopen { seconds },
                    Action::GiveUp => Onward::Fail,
                })
            },
        },
{
    match exit {
        LiveExit::Idle | LiveExit::Stop => Onward::Finish,
        LiveExit::Lost { reason: _, frames } => match attempts.lost(frames) {
            Action::Retry(seconds) => Onward::Reopen { seconds },
            Action::GiveUp => Onward::Fail,
        },
    }
}

/// A session runs only for a consumer that was seen to capture, or to go on one that was
/// lost while its consumer stayed; the daemon stops only when the loopback fails, a session
/// ends fatally, or six sessions in a row were lost without a frame.
pub proof fn law_duties_have_their_reasons(s: OnDemand, h: Happened)
    requires
        s.wf(),
        s.expects(h),
    ensures
        ({
            let (t, duty) = on_demand_spec(s, h);
            &&& duty == Duty::RunSession <==> (h == Happened::Drained(Some(true)) || h
                == (Happened::Dwelled { stay: true }))
            &&& duty == Duty::Stop <==> (h == (Happened::StandbyWritten { ok: false }) || h
                == Happened::SessionEnded(LiveExit::Stop) || (h matches Happened::SessionEnded(
                LiveExit::Lost { frames, .. },
            ) && frames == 0 && s.attempts.count >= 5))
            &&& duty is Dwell <==> (h matches Happened::SessionEnded(LiveExit::Lost { frames, .. })
                && (frames > 0 || s.attempts.count < 5))
            &&& duty == Duty::WriteStandby <==> (h matches Happened::Drained(seen) && seen
                != Some(true))
            &&& duty == Duty::RunSession <==> t.waiting == Waiting::Session
            &&& duty == Duty::Stop <==> t.waiting == Waiting::Over
            &&& duty is Dwell <==> t.waiting == Waiting::Dwell
            &&& duty == Duty::WriteStandby <==> t.waiting == Waiting::Standby
            &&& duty == Duty::Drain <==> t.waiting == Waiting::Consumer
        }),
{
}

/// Pauses double: where one frameless loss follows another and the consumer stayed, the
/// second pause is a second after none, and twice the first one otherwise. A session that
/// had delivered frames is reopened at once.
pub proof fn law_pauses_double(s: OnDemand, first: LiveExit, second: LiveExit, pause: u64)
    requires
        s.wf(),
        s.waiting == Waiting::Session,
        first matches LiveExit::Lost { frames, .. } && frames == 0,
        second matches LiveExit::Lost { frames, .. } && frames == 0,
        on_demand_spec(s, Happened::SessionEnded(first)).1 == (Duty::Dwell { seconds: pause }),
    ensures
        ({
            let paused = on_demand_spec(s, Happened::SessionEnded(first)).0;
            let reopened = on_demand_spec(paused, Happened::Dwelled { stay: true }).0;
            let (t, duty) = on_demand_spec(reopened, Happened::SessionEnded(second));
            &&& duty == Duty::Stop || duty == (Duty::Dwell {
                seconds: if pause == 0 {
                    1
                } else {
                    (2 * pause) as u64
                },
            })
            &&& duty == Duty::Stop <==> pause == 8
        }),
        forall|good: LiveExit|
            (good matches LiveExit::Lost { frames, .. } && frames > 0) ==> #[trigger] on_demand_spec(
                s,
                Happened::SessionEnded(good),
            ).1 == (Duty::Dwell { seconds: 0 }),
{
    vstd::arithmetic::power2::lemma2_to64();
}

/// A pause is spent in standby periods: while the consumer stays, each step sleeps for a
/// tenth of a second, or for what is left where that is less, so that the steps' sleeps come
/// to the pause and it ends when nothing is left; a consumer that leaves ends it at once.
pub proof fn law_pauses_are_spent_in_periods(seen: Option<bool>, left: u64, step: DwellStep)
    requires
        call_ensures(dwell_step, (seen, left), step),
    ensures
        match step {
            DwellStep::Write { sleep } => {
                &&& seen != Some(false)
                &&& 0 < sleep <= left
                &&& sleep <= 100_000_000
                &&& sleep < left ==> sleep == 100_000_000
            },
            DwellStep::Done => seen != Some(false) && left == 0,
            DwellStep::Gone => seen == Some(false),
        },
{
}

/// The GPU is used where it is there and was not ruled out, the CPU where it was asked for or
/// is the fallback, and only a GPU that was insisted on can fail; whether it is there does
/// not matter where it is not tried.
pub proof fn law_engine_is_what_can_be_had(
    backend: Backend,
    tries: bool,
    with: EngineChoice,
    without: EngineChoice,
)
    requires
        call_ensures(tries_gpu, (backend,), tries),
        call_ensures(choose_engine, (backend, true), with),
        call_ensures(choose_engine, (backend, false), without),
    ensures
        with == EngineChoice::Gpu <==> tries,
        !tries ==> with == without && with == EngineChoice::Cpu,
        without != EngineChoice::Gpu,
        without == EngineChoice::Fail <==> backend == Backend::Gpu,
        without == EngineChoice::CpuFallback <==> backend == Backend::Auto,
{
}

} // verus!
