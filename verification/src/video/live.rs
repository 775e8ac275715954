//! The live frame loop, as a machine: it is told what happened and answers what
//! to do next.
//!
//! Each round drains the consumer events, waits for a completed request, runs the
//! frame through the engine, drives auto-exposure and hands the buffer back. The
//! camera, the loopback and the sensor are the caller's; every decision of the
//! loop is made here.

use vstd::prelude::*;

use crate::ae::{
    in_limits, is_step as is_ae_step, law_step_keeps_limits, step as ae_step, AeConfig, AeState,
    Demand, RATIO_MAX,
};

verus! {

/// Frames to hold metering after a sensor change. The sensor applies a new
/// exposure or gain with a delay; metering every frame would issue several
/// corrections before the first takes effect and oscillate. The measured delay is
/// two frames; this keeps one frame of margin on top.
pub const AE_SETTLE: u32 = 3;

/// Frames between a gain's command and the frame it exposed.
pub const APPLY_DELAY: usize = 2;

/// Why a camera session was lost.
#[derive(Debug, Clone, Copy, PartialEq, Eq, Structural)]
pub enum LostReason {
    OpenFailed,
    StartFailed,
    InitialQueueFailed,
    Stalled,
    MalformedRequeueFailed,
    RequeueFailed,
}

impl LostReason {
    /// The reason in words.
    pub open spec fn words(&self) -> Seq<char> {
        match self {
            LostReason::OpenFailed => "open failed"@,
            LostReason::StartFailed => "start failed"@,
            LostReason::InitialQueueFailed => "initial queue failed"@,
            LostReason::Stalled => "capture stalled"@,
            LostReason::MalformedRequeueFailed => "requeue after malformed frame failed"@,
            LostReason::RequeueFailed => "requeue failed"@,
        }
    }

    /// The reason in words.
    pub fn text(&self) -> (s: &'static str)
        ensures
            s@ == self.words(),
    {
        match self {
            LostReason::OpenFailed => "open failed",
            LostReason::StartFailed => "start failed",
            LostReason::InitialQueueFailed => "initial queue failed",
            LostReason::Stalled => "capture stalled",
            LostReason::MalformedRequeueFailed => "requeue after malformed frame failed",
            LostReason::RequeueFailed => "requeue failed",
        }
    }
}

/// Why the live loop ended.
#[derive(Debug, Clone, Copy, PartialEq, Eq, Structural)]
pub enum LiveExit {
    /// The last consumer disconnected: stop the camera and wait for the next.
    Idle,
    /// The session stopped delivering frames; the daemon is healthy, so the caller
    /// opens a fresh one. Carries how many frames the session produced.
    Lost { reason: LostReason, frames: u64 },
    /// A fatal condition (the loopback output failed): reopening the camera
    /// cannot help.
    Stop,
}

/// The steps of bringing a session up, in order.
#[derive(Debug, Clone, Copy, PartialEq, Eq, Structural)]
pub enum Opening {
    Open,
    Start,
    QueueInitial,
}

/// A session that fails to come up is lost with no frames, so the same retry
/// policy applies to it as to one that stalled mid-stream.
pub fn failed_opening(at: Opening) -> (exit: LiveExit)
    ensures
        exit == (LiveExit::Lost {
            reason: match at {
                Opening::Open => LostReason::OpenFailed,
                Opening::Start => LostReason::StartFailed,
                Opening::QueueInitial => LostReason::InitialQueueFailed,
            },
            frames: 0,
        }),
{
    LiveExit::Lost {
        reason: match at {
            Opening::Open => LostReason::OpenFailed,
            Opening::Start => LostReason::StartFailed,
            Opening::QueueInitial => LostReason::InitialQueueFailed,
        },
        frames: 0,
    }
}

/// The gains commanded for the last frames, oldest first; at most `APPLY_DELAY`
/// of them between frames.
#[derive(Debug, Clone, PartialEq, Eq)]
pub struct GainLog {
    pub log: Vec<u8>,
}

/// What the log holds after the gains `commanded` were recorded, one per frame.
pub open spec fn log_after(commanded: Seq<u8>) -> Seq<u8> {
    if commanded.len() <= APPLY_DELAY {
        commanded
    } else {
        commanded.skip(commanded.len() - APPLY_DELAY)
    }
}

/// Recording `gain` in a log: the log it leaves, and the gain the frame in hand
/// was exposed with.
pub open spec fn recorded(log: Seq<u8>, gain: u8) -> (Seq<u8>, u8) {
    let full = log.push(gain);
    if full.len() > APPLY_DELAY {
        (full.skip(1), full[0])
    } else {
        (full, full[0])
    }
}

impl GainLog {
    /// An empty log.
    pub fn new() -> (g: Self)
        ensures
            g.log@ == Seq::<u8>::empty(),
    {
        GainLog { log: Vec::new() }
    }

    /// Record the gain commanded for the frame in hand and return the gain that
    /// frame was exposed with: the one commanded `APPLY_DELAY` frames ago, or the
    /// earliest known until that much history exists.
    pub fn record(&mut self, gain: u8) -> (exposed: u8)
        requires
            old(self).log.len() <= APPLY_DELAY,
        ensures
            final(self).log@ == recorded(old(self).log@, gain).0,
            exposed == recorded(old(self).log@, gain).1,
            final(self).log.len() <= APPLY_DELAY,
    {
        self.log.push(gain);
        if self.log.len() > APPLY_DELAY {
            let exposed: u8 = self.log.remove(0);
            assert(self.log@ =~= recorded(old(self).log@, gain).0);
            exposed
        } else {
            self.log[0]
        }
    }
}

/// Denoising goes by the gain a frame was exposed with: recording one gain per
/// frame yields, for each frame, the gain commanded two frames before it, and for
/// the first two frames the first gain.
pub proof fn law_gain_lags_two_frames(commanded: Seq<u8>, gain: u8)
    ensures
        recorded(log_after(commanded), gain).0 == log_after(commanded.push(gain)),
        recorded(log_after(commanded), gain).1 == commanded.push(gain)[if commanded.len()
            >= APPLY_DELAY {
            commanded.len() - APPLY_DELAY
        } else {
            0
        }],
{
    let all = commanded.push(gain);
    let log = log_after(commanded);
    assert(recorded(log, gain).0 =~= log_after(all));
}

/// What the loop waits for.
#[derive(Debug, Clone, Copy, PartialEq, Eq, Structural)]
pub enum Phase {
    /// The consumer events, drained.
    Consumer,
    /// A completed request.
    Request,
    /// The outcome of processing and writing a frame.
    Outcome,
    /// The outcome of a sensor write.
    Applied,
    /// The outcome of handing a buffer back, after a frame or a malformed one.
    Requeued { malformed: bool },
    /// Nothing: the loop has ended.
    Over,
}

/// What happened.
#[derive(Debug, Clone, Copy, PartialEq, Eq, Structural)]
pub enum Event {
    /// The consumer events were drained; the last state seen, if any.
    Consumer(Option<bool>),
    /// No request completed in time.
    Timeout,
    /// A request completed; `dropped` older ones were handed back unread, and the
    /// freshest has readable bytes or is malformed.
    Request { dropped: u64, malformed: bool },
    /// The frame was written. Carries what the metered luma asks of exposure
    /// (nothing inside the deadband).
    Written { demand: Option<Demand> },
    /// The frame was skipped: the engine refused or failed on it.
    Skipped,
    /// Writing to the loopback failed.
    WriteFailed,
    /// The sensor write was done or failed.
    Applied { ok: bool },
    /// The buffer was handed back or could not be.
    Requeued { ok: bool },
}

/// What to do next.
#[derive(Debug, Clone, Copy, PartialEq, Eq, Structural)]
pub enum Action {
    /// Drain the consumer events.
    PollConsumer,
    /// Wait for a request and take the freshest.
    Receive,
    /// Process and write the frame, denoised for this gain.
    Process { gain: u8 },
    /// Write this state to the sensor.
    Apply(AeState),
    /// Hand the buffer back.
    Requeue,
    /// Leave the loop.
    Exit(LiveExit),
}

/// The loop's state.
#[derive(Debug, Clone, PartialEq, Eq)]
pub struct Live {
    /// Leave when the last consumer disconnects.
    pub watch_consumer: bool,
    /// Drive exposure; needs the sensor.
    pub ae: bool,
    /// The sensor can be written.
    pub sensor: bool,
    pub cfg: AeConfig,
    pub phase: Phase,
    pub state: AeState,
    /// Frames left to hold metering.
    pub ae_hold: u32,
    pub gains: GainLog,
    /// Frames written.
    pub frames: u64,
    /// Frames dropped unread.
    pub dropped: u64,
    /// Frames skipped or malformed.
    pub errors: u64,
    /// Sensor writes that failed.
    pub ae_errors: u64,
}

impl Live {
    /// The limits make sense and the log is short.
    pub open spec fn wf(&self) -> bool {
        &&& self.cfg.wf()
        &&& self.gains.log.len() <= APPLY_DELAY
        &&& self.ae_hold <= AE_SETTLE
    }

    /// The counters can take one more round.
    pub open spec fn has_room(&self, ev: Event) -> bool {
        &&& self.frames < u64::MAX
        &&& self.errors < u64::MAX
        &&& self.ae_errors < u64::MAX
        &&& match ev {
            Event::Request { dropped, .. } => self.dropped + dropped <= u64::MAX,
            _ => true,
        }
    }

    /// The event is one that the loop waits for.
    pub open spec fn expects(&self, ev: Event) -> bool {
        match (self.phase, ev) {
            (Phase::Consumer, Event::Consumer(_)) => true,
            (Phase::Request, Event::Timeout) => true,
            (Phase::Request, Event::Request { .. }) => true,
            (Phase::Outcome, Event::Written { demand }) => demand is Some
                ==> demand->0.product <= RATIO_MAX,
            (Phase::Outcome, Event::Skipped) => true,
            (Phase::Outcome, Event::WriteFailed) => true,
            (Phase::Applied, Event::Applied { .. }) => true,
            (Phase::Requeued { .. }, Event::Requeued { .. }) => true,
            _ => false,
        }
    }
}

/// Everything but the counters, the phase and what a frame moves is the same.
pub open spec fn same_setup(a: Live, b: Live) -> bool {
    &&& b.watch_consumer == a.watch_consumer
    &&& b.ae == a.ae
    &&& b.sensor == a.sensor
    &&& b.cfg == a.cfg
}

/// One round's beginning: the consumer is looked after only where it is watched.
pub open spec fn round_start(watch: bool) -> (Phase, Action) {
    if watch {
        (Phase::Consumer, Action::PollConsumer)
    } else {
        (Phase::Request, Action::Receive)
    }
}

/// Exposure metering is on, able, and not held.
pub open spec fn metering(s: Live) -> bool {
    s.ae && s.ae_hold == 0 && s.sensor
}

/// What `s` becomes, and what is done, when `ev` happens.
pub open spec fn is_transition(s: Live, ev: Event, t: Live, act: Action) -> bool {
    let lost = |reason: LostReason| Action::Exit(LiveExit::Lost { reason, frames: s.frames });
    match ev {
        Event::Consumer(seen) => if s.watch_consumer && seen == Some(false) {
            t == (Live { phase: Phase::Over, ..s }) && act == Action::Exit(LiveExit::Idle)
        } else {
            t == (Live { phase: Phase::Request, ..s }) && act == Action::Receive
        },
        Event::Timeout => t == (Live { phase: Phase::Over, ..s }) && act == lost(LostReason::Stalled),
        Event::Request { dropped, malformed } => if malformed {
            &&& t == (Live {
                phase: Phase::Requeued { malformed: true },
                dropped: (s.dropped + dropped) as u64,
                errors: (s.errors + 1) as u64,
                ..s
            })
            &&& act == Action::Requeue
        } else {
            &&& t == (Live {
                phase: Phase::Outcome,
                dropped: (s.dropped + dropped) as u64,
                gains: t.gains,
                ..s
            })
            &&& t.gains.log@ == recorded(s.gains.log@, s.state.gain_index).0
            &&& act == (Action::Process {
                gain: recorded(s.gains.log@, s.state.gain_index).1,
            })
        },
        Event::Written { demand } => if metering(s) {
            &&& is_ae_step(s.cfg, s.state, demand, t.state)
            &&& if t.state != s.state {
                &&& t == (Live {
                    phase: Phase::Applied,
                    state: t.state,
                    ae_hold: AE_SETTLE,
                    frames: (s.frames + 1) as u64,
                    ..s
                })
                &&& act == Action::Apply(t.state)
            } else {
                &&& t == (Live {
                    phase: Phase::Requeued { malformed: false },
                    frames: (s.frames + 1) as u64,
                    ..s
                })
                &&& act == Action::Requeue
            }
        } else {
            &&& t == (Live {
                phase: Phase::Requeued { malformed: false },
                ae_hold: if s.ae && s.ae_hold > 0 {
                    (s.ae_hold - 1) as u32
                } else {
                    s.ae_hold
                },
                frames: (s.frames + 1) as u64,
                ..s
            })
            &&& act == Action::Requeue
        },
        Event::Skipped => {
            &&& t == (Live {
                phase: Phase::Requeued { malformed: false },
                errors: (s.errors + 1) as u64,
                ..s
            })
            &&& act == Action::Requeue
        },
        Event::WriteFailed => {
            &&& t == (Live { phase: Phase::Over, ..s })
            &&& act == Action::Exit(LiveExit::Stop)
        },
        Event::Applied { ok } => {
            &&& t == (Live {
                phase: Phase::Requeued { malformed: false },
                ae_errors: if ok {
                    s.ae_errors
                } else {
                    (s.ae_errors + 1) as u64
                },
                ..s
            })
            &&& act == Action::Requeue
        },
        Event::Requeued { ok } => if ok {
            &&& t == (Live { phase: round_start(s.watch_consumer).0, ..s })
            &&& act == round_start(s.watch_consumer).1
        } else {
            &&& t == (Live { phase: Phase::Over, ..s })
            &&& act == lost(
                if s.phase == (Phase::Requeued { malformed: true }) {
                    LostReason::MalformedRequeueFailed
                } else {
                    LostReason::RequeueFailed
                },
            )
        },
    }
}

impl Live {
    /// A loop about to start, and what it does first.
    pub fn start(
        watch_consumer: bool,
        ae: bool,
        sensor: bool,
        cfg: AeConfig,
        state: AeState,
    ) -> (r: (Live, Action))
        requires
            cfg.wf(),
        ensures
            r.0.wf(),
            r.0.watch_consumer == watch_consumer,
            r.0.ae == ae,
            r.0.sensor == sensor,
            r.0.cfg == cfg,
            r.0.state == state,
            r.0.ae_hold == 0,
            r.0.gains.log@ == Seq::<u8>::empty(),
            r.0.frames == 0 && r.0.dropped == 0 && r.0.errors == 0 && r.0.ae_errors == 0,
            r.0.phase == round_start(watch_consumer).0,
            r.1 == round_start(watch_consumer).1,
    {
        let (phase, act): (Phase, Action) = begin_round(watch_consumer);
        (
            Live {
                watch_consumer,
                ae,
                sensor,
                cfg,
                phase,
                state,
                ae_hold: 0,
                gains: GainLog::new(),
                frames: 0,
                dropped: 0,
                errors: 0,
                ae_errors: 0,
            },
            act,
        )
    }

    /// Take in what happened and answer what to do next.
    pub fn next(&mut self, ev: Event) -> (act: Action)
        requires
            old(self).wf(),
            old(self).expects(ev),
            old(self).has_room(ev),
        ensures
            final(self).wf(),
            same_setup(*old(self), *final(self)),
            is_transition(*old(self), ev, *final(self), act),
    {
        match ev {
            Event::Consumer(seen) => {
                let gone: bool = match seen {
                    Some(active) => !active,
                    None => false,
                };
                if self.watch_consumer && gone {
                    self.phase = Phase::Over;
                    Action::Exit(LiveExit::Idle)
                } else {
                    self.phase = Phase::Request;
                    Action::Receive
                }
            },
            Event::Timeout => {
                self.phase = Phase::Over;
                Action::Exit(LiveExit::Lost { reason: LostReason::Stalled, frames: self.frames })
            },
            Event::Request { dropped, malformed } => {
                self.dropped = self.dropped + dropped;
                if malformed {
                    self.errors = self.errors + 1;
                    self.phase = Phase::Requeued { malformed: true };
                    Action::Requeue
                } else {
                    let gain: u8 = self.gains.record(self.state.gain_index);
                    self.phase = Phase::Outcome;
                    Action::Process { gain }
                }
            },
            Event::Written { demand } => {
                self.frames = self.frames + 1;
                let mut changed: bool = false;
                if self.ae {
                    if self.ae_hold > 0 {
                        self.ae_hold = self.ae_hold - 1;
                    } else if self.sensor {
                        let next: AeState = ae_step(&self.cfg, self.state, demand);
                        if next != self.state {
                            self.state = next;
                            self.ae_hold = AE_SETTLE;
                            changed = true;
                        }
                    }
                }
                if changed {
                    self.phase = Phase::Applied;
                    Action::Apply(self.state)
                } else {
                    self.phase = Phase::Requeued { malformed: false };
                    Action::Requeue
                }
            },
            Event::Skipped => {
                self.errors = self.errors + 1;
                self.phase = Phase::Requeued { malformed: false };
                Action::Requeue
            },
            Event::WriteFailed => {
                self.phase = Phase::Over;
                Action::Exit(LiveExit::Stop)
            },
            Event::Applied { ok } => {
                if !ok {
                    self.ae_errors = self.ae_errors + 1;
                }
                self.phase = Phase::Requeued { malformed: false };
                Action::Requeue
            },
            Event::Requeued { ok } => {
                if ok {
                    let (phase, act): (Phase, Action) = begin_round(self.watch_consumer);
                    self.phase = phase;
                    act
                } else {
                    let malformed: bool = match self.phase {
                        Phase::Requeued { malformed } => malformed,
                        _ => false,
                    };
                    self.phase = Phase::Over;
                    Action::Exit(
                        LiveExit::Lost {
                            reason: if malformed {
                                LostReason::MalformedRequeueFailed
                            } else {
                                LostReason::RequeueFailed
                            },
                            frames: self.frames,
                        },
                    )
                }
            },
        }
    }
}

/// One round's beginning.
fn begin_round(watch: bool) -> (r: (Phase, Action))
    ensures
        r == round_start(watch),
{
    if watch {
        (Phase::Consumer, Action::PollConsumer)
    } else {
        (Phase::Request, Action::Receive)
    }
}

/// Is a failure worth a log line? The first five are, then every hundredth, so
/// that a systematic fault is visible without flooding.
pub fn logs_skip(errors: u64) -> (r: bool)
    ensures
        r == (errors <= 5 || errors % 100 == 0),
{
    errors <= 5 || errors % 100 == 0
}

/// Is a failed sensor write worth a log line? The first five are.
pub fn logs_apply_failure(ae_errors: u64) -> (r: bool)
    ensures
        r == (ae_errors <= 5),
{
    ae_errors <= 5
}

/// A run of the loop: states, with what happened and was done between them.
pub open spec fn is_run(st: Seq<Live>, ev: Seq<Event>, act: Seq<Action>) -> bool {
    &&& st.len() == ev.len() + 1
    &&& act.len() == ev.len()
    &&& forall|i: int|
        0 <= i < ev.len() ==> #[trigger] st[i].expects(ev[i]) && st[i].has_room(ev[i])
            && is_transition(st[i], ev[i], st[i + 1], act[i])
}

/// Frames written among the events `lo..hi`.
pub open spec fn written(ev: Seq<Event>, lo: int, hi: int) -> int
    decreases hi - lo,
{
    if hi <= lo {
        0
    } else {
        written(ev, lo, hi - 1) + if ev[hi - 1] is Written {
            1int
        } else {
            0int
        }
    }
}

/// Frames lost among the events `lo..hi`: skipped or malformed.
pub open spec fn failed(ev: Seq<Event>, lo: int, hi: int) -> int
    decreases hi - lo,
{
    if hi <= lo {
        0
    } else {
        failed(ev, lo, hi - 1) + match ev[hi - 1] {
            Event::Skipped => 1int,
            Event::Request { malformed: true, .. } => 1int,
            _ => 0int,
        }
    }
}

/// While a change settles, every written frame counts the hold down.
proof fn lemma_hold(st: Seq<Live>, ev: Seq<Event>, act: Seq<Action>, i: int, k: int)
    requires
        is_run(st, ev, act),
        0 <= i < k <= ev.len(),
        act[i] is Apply,
    ensures
        written(ev, i + 1, k) + st[k].ae_hold >= AE_SETTLE,
    decreases k - i,
{
    if k == i + 1 {
        assert(st[i].expects(ev[i]));
    } else {
        lemma_hold(st, ev, act, i, k - 1);
        assert(st[k - 1].expects(ev[k - 1]));
        assert(is_transition(st[k - 1], ev[k - 1], st[k - 1 + 1], act[k - 1]));
    }
}

/// The loop does not double-correct: between two sensor changes at least
/// `AE_SETTLE` frames are written without one.
pub proof fn law_changes_are_spaced(
    st: Seq<Live>,
    ev: Seq<Event>,
    act: Seq<Action>,
    i: int,
    j: int,
)
    requires
        is_run(st, ev, act),
        0 <= i < j < ev.len(),
        act[i] is Apply,
        act[j] is Apply,
    ensures
        written(ev, i + 1, j) >= AE_SETTLE,
{
    lemma_hold(st, ev, act, i, j);
    assert(st[j].expects(ev[j]));
}

/// No frame goes unaccounted: over a run, the frame counter rises by the frames
/// written and the error counter by the frames skipped or malformed.
pub proof fn law_every_frame_is_counted(st: Seq<Live>, ev: Seq<Event>, act: Seq<Action>, n: int)
    requires
        is_run(st, ev, act),
        0 <= n <= ev.len(),
    ensures
        st[n].frames == st[0].frames + written(ev, 0, n),
        st[n].errors == st[0].errors + failed(ev, 0, n),
    decreases n,
{
    if n > 0 {
        law_every_frame_is_counted(st, ev, act, n - 1);
        assert(st[n - 1].expects(ev[n - 1]));
        assert(is_transition(st[n - 1], ev[n - 1], st[n - 1 + 1], act[n - 1]));
    }
}

/// A watched consumer that disconnects ends the loop at once, before another
/// frame is awaited; a session that stalls or loses a buffer ends as lost with the
/// frames it produced.
pub proof fn law_ends_are_reported(s: Live, ev: Event, t: Live, act: Action)
    requires
        s.expects(ev),
        is_transition(s, ev, t, act),
    ensures
        s.watch_consumer && ev == Event::Consumer(Some(false)) ==> act == Action::Exit(LiveExit::Idle),
        act matches Action::Exit(LiveExit::Lost { frames, .. }) ==> frames == s.frames,
        act is Exit <==> t.phase == Phase::Over,
{
}

/// Exposure stays within the sensor's limits over a whole run.
pub proof fn law_exposure_stays_in_limits(
    st: Seq<Live>,
    ev: Seq<Event>,
    act: Seq<Action>,
    n: int,
)
    requires
        is_run(st, ev, act),
        0 <= n <= ev.len(),
        st[0].cfg.wf(),
        in_limits(st[0].cfg, st[0].state),
    ensures
        st[n].cfg == st[0].cfg,
        in_limits(st[n].cfg, st[n].state),
    decreases n,
{
    if n > 0 {
        law_exposure_stays_in_limits(st, ev, act, n - 1);
        let (s, e, t) = (st[n - 1], ev[n - 1], st[n]);
        assert(s.expects(e));
        assert(is_transition(s, e, st[n - 1 + 1], act[n - 1]));
        if let Event::Written { demand } = e {
            if metering(s) {
                law_step_keeps_limits(s.cfg, s.state, demand, t.state);
            }
        }
    }
}

/// Exposure moves only where it is driven: a frame changes the sensor state only when
/// exposure is on, the sensor can be written, no change is settling and the frame asks for
/// another exposure. The change is written to the sensor as it is kept, and three frames
/// are then left to settle; each written one counts off one, and meters nothing.
pub proof fn law_exposure_moves_only_where_driven(s: Live, ev: Event, t: Live, act: Action)
    requires
        s.expects(ev),
        s.has_room(ev),
        is_transition(s, ev, t, act),
    ensures
        t.state != s.state ==> act == Action::Apply(t.state),
        act is Apply ==> {
            &&& act == Action::Apply(t.state)
            &&& t.state != s.state
            &&& s.ae && s.sensor && s.ae_hold == 0
            &&& ev matches Event::Written { demand: Some(_) }
            &&& t.ae_hold == 3
        },
        ev is Written && s.ae && s.ae_hold > 0 ==> t.ae_hold == s.ae_hold - 1 && act
            == Action::Requeue,
        ev is Written && !s.ae ==> t.ae_hold == s.ae_hold && act == Action::Requeue,
        !(ev is Written) ==> t.ae_hold == s.ae_hold && t.state == s.state,
        ev matches Event::Written { demand } ==> s.ae && s.sensor && s.ae_hold == 0 ==> is_ae_step(
            s.cfg,
            s.state,
            demand,
            t.state,
        ),
        t.cfg == s.cfg && t.ae == s.ae && t.sensor == s.sensor && t.watch_consumer
            == s.watch_consumer,
{
}

/// Every buffer that was received is handed back before the next is awaited: a request
/// leads to processing or straight to handing back, the outcome to handing back at once or
/// after a sensor write, and only a buffer handed back to the next round, which looks after
/// a watched consumer first.
pub proof fn law_rounds_hand_their_buffer_back(s: Live, ev: Event, t: Live, act: Action)
    requires
        s.expects(ev),
        is_transition(s, ev, t, act),
    ensures
        match ev {
            Event::Request { malformed: true, .. } => act == Action::Requeue,
            Event::Request { malformed: false, .. } => act is Process && t.phase == Phase::Outcome,
            Event::Written { .. } => act is Requeue || act is Apply,
            Event::Skipped => act == Action::Requeue,
            Event::Applied { .. } => act == Action::Requeue,
            Event::Requeued { ok: true } => act == (if s.watch_consumer {
                Action::PollConsumer
            } else {
                Action::Receive
            }),
            Event::Requeued { ok: false } => act matches Action::Exit(
                LiveExit::Lost { reason, .. },
            ) && (reason == LostReason::MalformedRequeueFailed || reason
                == LostReason::RequeueFailed),
            Event::Consumer(Some(false)) => act == (if s.watch_consumer {
                Action::Exit(LiveExit::Idle)
            } else {
                Action::Receive
            }),
            Event::Consumer(_) => act == Action::Receive,
            Event::Timeout => act matches Action::Exit(LiveExit::Lost { reason, .. }) && reason
                == LostReason::Stalled,
            Event::WriteFailed => act == Action::Exit(LiveExit::Stop),
        },
        act == Action::Requeue ==> t.phase is Requeued,
        act is Apply ==> t.phase == Phase::Applied,
        act == Action::Receive ==> t.phase == Phase::Request,
        act == Action::PollConsumer ==> t.phase == Phase::Consumer,
        ev matches Event::Request { malformed, .. } ==> malformed ==> t.phase == (Phase::Requeued {
            malformed: true,
        }),
        ev matches Event::Requeued { ok } ==> !ok ==> (act matches Action::Exit(
            LiveExit::Lost { reason, .. },
        ) && (s.phase == (Phase::Requeued { malformed: true }) <==> reason
            == LostReason::MalformedRequeueFailed)),
        ev is Written || ev is Skipped || ev is Applied ==> t.phase != (Phase::Requeued {
            malformed: true,
        }),
{
}

/// Requests dropped unread among the events `lo..hi`.
pub open spec fn unread(ev: Seq<Event>, lo: int, hi: int) -> int
    decreases hi - lo,
{
    if hi <= lo {
        0
    } else {
        unread(ev, lo, hi - 1) + match ev[hi - 1] {
            Event::Request { dropped, .. } => dropped as int,
            _ => 0int,
        }
    }
}

/// Sensor writes that failed among the events `lo..hi`.
pub open spec fn unapplied(ev: Seq<Event>, lo: int, hi: int) -> int
    decreases hi - lo,
{
    if hi <= lo {
        0
    } else {
        unapplied(ev, lo, hi - 1) + match ev[hi - 1] {
            Event::Applied { ok: false } => 1int,
            _ => 0int,
        }
    }
}

/// Nor does a dropped request or a failed sensor write go unaccounted.
pub proof fn law_every_loss_is_counted(st: Seq<Live>, ev: Seq<Event>, act: Seq<Action>, n: int)
    requires
        is_run(st, ev, act),
        0 <= n <= ev.len(),
    ensures
        st[n].dropped == st[0].dropped + unread(ev, 0, n),
        st[n].ae_errors == st[0].ae_errors + unapplied(ev, 0, n),
    decreases n,
{
    if n > 0 {
        law_every_loss_is_counted(st, ev, act, n - 1);
        assert(st[n - 1].expects(ev[n - 1]));
        assert(is_transition(st[n - 1], ev[n - 1], st[n - 1 + 1], act[n - 1]));
    }
}

/// The gains that stood when the readable requests of a run came in, one for each.
pub open spec fn gains_in_force(st: Seq<Live>, ev: Seq<Event>, n: int) -> Seq<u8>
    decreases n,
{
    if n <= 0 {
        Seq::empty()
    } else {
        match ev[n - 1] {
            Event::Request { malformed: false, .. } => gains_in_force(st, ev, n - 1).push(
                st[n - 1].state.gain_index,
            ),
            _ => gains_in_force(st, ev, n - 1),
        }
    }
}

/// Over a whole run every readable frame is denoised for the gain that stood two readable
/// frames before it, and the first two for the first one's.
pub proof fn law_frames_are_denoised_for_their_own_gain(
    st: Seq<Live>,
    ev: Seq<Event>,
    act: Seq<Action>,
    n: int,
)
    requires
        is_run(st, ev, act),
        st[0].gains.log@ == Seq::<u8>::empty(),
        0 <= n < ev.len(),
        ev[n] matches Event::Request { malformed, .. } && !malformed,
    ensures
        ({
            let past = gains_in_force(st, ev, n + 1);
            let frame = past.len() - 1;
            act[n] == (Action::Process {
                gain: past[if frame >= 2 {
                    frame - 2
                } else {
                    0
                }],
            })
        }),
{
    lemma_log_of_run(st, ev, act, n);
    assert(st[n].expects(ev[n]));
    assert(is_transition(st[n], ev[n], st[n + 1], act[n]));
    let past = gains_in_force(st, ev, n);
    law_gain_lags_two_frames(past, st[n].state.gain_index);
    assert(gains_in_force(st, ev, n + 1) == past.push(st[n].state.gain_index));
}

/// The log holds the last of the gains in force.
proof fn lemma_log_of_run(st: Seq<Live>, ev: Seq<Event>, act: Seq<Action>, n: int)
    requires
        is_run(st, ev, act),
        st[0].gains.log@ == Seq::<u8>::empty(),
        0 <= n <= ev.len(),
    ensures
        st[n].gains.log@ == log_after(gains_in_force(st, ev, n)),
    decreases n,
{
    if n > 0 {
        lemma_log_of_run(st, ev, act, n - 1);
        let (s, e) = (st[n - 1], ev[n - 1]);
        assert(s.expects(e));
        assert(is_transition(s, e, st[n - 1 + 1], act[n - 1]));
        law_gain_lags_two_frames(gains_in_force(st, ev, n - 1), s.state.gain_index);
    }
}

} // verus!
