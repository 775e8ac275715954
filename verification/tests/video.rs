//! The live loop, its supervision, the apply-delay measurement and raw capture.

use gc2607_isp::ae::{exposure_max, AeConfig, AeState, Demand, EXPOSURE_MIN, LINE, VBLANK_MIN};
use gc2607_isp::pipeline::processor::DebayerMode;
use gc2607_isp::pipeline::render::Rgb8;
use gc2607_isp::recovery::Attempts;
use gc2607_isp::video::dump::{frame_name, pixel_samples, saves, Dump};
use gc2607_isp::video::engine::{
    chroma_denoise_for_gain, output_size, temporal_luma_for_gain, DenoiseSpec, Scaling,
};
use gc2607_isp::video::live::{
    failed_opening, logs_apply_failure, logs_skip, Action, Event, GainLog, Live, LiveExit,
    LostReason, Opening, Phase, AE_SETTLE,
};
use gc2607_isp::video::measure::{
    detect_delay, plateau_start, suggested_settle, Measure, Seen, Stage, Task, Verdict, CAL_ITERS,
};
use gc2607_isp::video::supervise::{
    always_on, choose_engine, choose_gating, dwell_step, tries_gpu, Backend, Drain, Duty, DwellStep,
    EngineChoice, Gating, Happened, OnDemand, OnDemandMode, Onward, Polled, Waiting, STANDBY_PERIOD,
};

fn state(exposure: i32) -> AeState {
    AeState { exposure, gain_index: 0, vblank: VBLANK_MIN }
}

fn want(lines: u128) -> Option<Demand> {
    Some(Demand { product: lines * LINE, brighten: true })
}

fn live(watch: bool) -> Live {
    Live::start(watch, true, true, AeConfig::default(), state(100)).0
}

fn request(l: &mut Live) -> Action {
    l.next(Event::Request { dropped: 0, malformed: false })
}

/// One written frame, from the request to the next round.
fn frame(l: &mut Live, demand: Option<Demand>) -> Option<AeState> {
    assert!(matches!(request(l), Action::Process { .. }));
    let mut applied = None;
    let mut act = l.next(Event::Written { demand });
    if let Action::Apply(s) = act {
        applied = Some(s);
        act = l.next(Event::Applied { ok: true });
    }
    assert_eq!(act, Action::Requeue);
    assert_eq!(l.next(Event::Requeued { ok: true }), Action::Receive);
    applied
}

#[test]
fn loop_starts_with_what_it_watches() {
    let (l, act) = Live::start(true, true, true, AeConfig::default(), state(100));
    assert_eq!((l.phase, act), (Phase::Consumer, Action::PollConsumer));
    let (l, act) = Live::start(false, true, true, AeConfig::default(), state(100));
    assert_eq!((l.phase, act), (Phase::Request, Action::Receive));
}

#[test]
fn disconnect_ends_the_loop_at_once() {
    let mut l = live(true);
    assert_eq!(l.next(Event::Consumer(None)), Action::Receive);
    let mut l = live(true);
    assert_eq!(l.next(Event::Consumer(Some(true))), Action::Receive);
    let mut l = live(true);
    assert_eq!(l.next(Event::Consumer(Some(false))), Action::Exit(LiveExit::Idle));
    assert_eq!(l.phase, Phase::Over);
}

#[test]
fn losses_carry_their_reason_and_frames() {
    let mut l = live(false);
    frame(&mut l, None);
    frame(&mut l, None);
    let mut stalled = l.clone();
    assert_eq!(
        stalled.next(Event::Timeout),
        Action::Exit(LiveExit::Lost { reason: LostReason::Stalled, frames: 2 })
    );
    let mut bad = l.clone();
    assert_eq!(bad.next(Event::Request { dropped: 3, malformed: true }), Action::Requeue);
    assert_eq!((bad.dropped, bad.errors), (3, 1));
    assert_eq!(
        bad.next(Event::Requeued { ok: false }),
        Action::Exit(LiveExit::Lost { reason: LostReason::MalformedRequeueFailed, frames: 2 })
    );
    request(&mut l);
    assert_eq!(l.next(Event::Skipped), Action::Requeue);
    assert_eq!(l.errors, 1);
    assert_eq!(
        l.next(Event::Requeued { ok: false }),
        Action::Exit(LiveExit::Lost { reason: LostReason::RequeueFailed, frames: 2 })
    );
    assert_eq!(LostReason::Stalled.text(), "capture stalled");
    assert_eq!(LostReason::MalformedRequeueFailed.text(), "requeue after malformed frame failed");
    assert_eq!(LostReason::RequeueFailed.text(), "requeue failed");
}

#[test]
fn failed_write_stops_the_daemon() {
    let mut l = live(false);
    request(&mut l);
    assert_eq!(l.next(Event::WriteFailed), Action::Exit(LiveExit::Stop));
}

#[test]
fn sessions_that_fail_to_open_are_lost_without_frames() {
    for (at, reason, text) in [
        (Opening::Open, LostReason::OpenFailed, "open failed"),
        (Opening::Start, LostReason::StartFailed, "start failed"),
        (Opening::QueueInitial, LostReason::InitialQueueFailed, "initial queue failed"),
    ] {
        assert_eq!(failed_opening(at), LiveExit::Lost { reason, frames: 0 });
        assert_eq!(reason.text(), text);
    }
}

#[test]
fn changes_settle_before_the_next() {
    let mut l = live(false);
    let mut since = 100;
    for n in 0..20u128 {
        match frame(&mut l, want(200 + 10 * n)) {
            Some(s) => {
                assert!(since >= AE_SETTLE);
                assert_eq!(s.exposure as u128, 200 + 10 * n);
                since = 0;
            }
            None => since += 1,
        }
    }
    assert_eq!(l.frames, 20);
    assert_eq!(l.state.exposure, 360);
}

#[test]
fn exposure_is_left_alone_without_sensor_or_when_off() {
    let (mut l, _) = Live::start(false, false, true, AeConfig::default(), state(100));
    assert_eq!(frame(&mut l, want(500)), None);
    let (mut l, _) = Live::start(false, true, false, AeConfig::default(), state(100));
    assert_eq!(frame(&mut l, want(500)), None);
    assert_eq!(l.state, state(100));
}

#[test]
fn refused_sensor_writes_are_counted_and_kept() {
    let mut l = live(false);
    request(&mut l);
    assert_eq!(l.next(Event::Written { demand: want(500) }), Action::Apply(state(500)));
    assert_eq!(l.next(Event::Applied { ok: false }), Action::Requeue);
    assert_eq!((l.ae_errors, l.state, l.ae_hold), (1, state(500), AE_SETTLE));
    assert!(logs_apply_failure(5));
    assert!(!logs_apply_failure(6));
}

#[test]
fn skipped_frames_are_logged_sparingly() {
    assert!(logs_skip(5));
    assert!(!logs_skip(6));
    assert!(logs_skip(100));
    assert!(!logs_skip(101));
}

#[test]
fn gain_lags_two_frames() {
    let mut g = GainLog::new();
    let commanded = [5u8, 6, 7, 8, 9];
    let exposed: Vec<u8> = commanded.iter().map(|&c| g.record(c)).collect();
    assert_eq!(exposed, vec![5, 5, 5, 6, 7]);
}

#[test]
fn frames_are_denoised_for_the_gain_they_were_exposed_with() {
    let mut l = live(false);
    l.state.gain_index = 3;
    assert_eq!(request(&mut l), Action::Process { gain: 3 });
    l.next(Event::Skipped);
    l.next(Event::Requeued { ok: true });
    l.state.gain_index = 8;
    assert_eq!(request(&mut l), Action::Process { gain: 3 });
    l.next(Event::Skipped);
    l.next(Event::Requeued { ok: true });
    assert_eq!(request(&mut l), Action::Process { gain: 3 });
    l.next(Event::Skipped);
    l.next(Event::Requeued { ok: true });
    assert_eq!(request(&mut l), Action::Process { gain: 8 });
}

#[test]
fn denoise_grows_with_gain() {
    assert_eq!(chroma_denoise_for_gain(0), (0, 0));
    assert_eq!(chroma_denoise_for_gain(3), (0, 0));
    assert_eq!(chroma_denoise_for_gain(4), (1, 50));
    assert_eq!(chroma_denoise_for_gain(8), (2, 70));
    assert_eq!(chroma_denoise_for_gain(12), (3, 85));
    assert_eq!(chroma_denoise_for_gain(16), (3, 85));
    assert_eq!(
        [0u8, 3, 4, 7, 8, 11, 12, 16].map(temporal_luma_for_gain),
        [0, 0, 40, 40, 55, 55, 70, 70]
    );
    let off = denoise_at(0, 1.0, 1.0);
    assert!(!off.chroma_on());
    assert!(!off.temporal_on());
    let on = denoise_at(4, 1.0, 1.0);
    assert!(on.chroma_on());
    assert!(on.temporal_on());
    assert!(!DenoiseSpec { chroma_radius: 0, ..on }.chroma_on());
}

/// Scales on the denoise settings.
struct Scales {
    denoise: f64,
    temporal: f64,
}

impl Scaling for Scales {
    type X = f64;

    fn chroma(&self, hundredths: u8) -> f64 {
        (hundredths as f64 / 100.0 * self.denoise).clamp(0.0, 1.0)
    }

    fn temporal(&self, hundredths: u8) -> f64 {
        (hundredths as f64 / 100.0 * self.temporal).clamp(0.0, 0.95)
    }

    fn positive(&self, x: f64) -> bool {
        x > 0.0
    }
}

fn denoise_at(gain: u8, denoise: f64, temporal: f64) -> DenoiseSpec<f64> {
    DenoiseSpec::from_gain(gain, &Scales { denoise, temporal })
}

#[test]
fn scaled_denoise_follows_the_gain() {
    let d = denoise_at(8, 0.5, 2.0);
    assert_eq!((d.chroma_radius, d.chroma_strength, d.temporal_alpha), (2, 0.35, 0.95));
    for (denoise, temporal) in [(1.0, 0.0), (0.0, 2.0), (0.3, 0.7)] {
        for g in 0..16 {
            let (a, b) = (denoise_at(g, denoise, temporal), denoise_at(g + 1, denoise, temporal));
            assert_eq!(a.chroma_on(), g >= 4 && denoise > 0.0);
            assert_eq!(a.temporal_on(), g >= 4 && temporal > 0.0);
            assert!(a.chroma_radius <= b.chroma_radius);
            assert!(a.chroma_strength <= b.chroma_strength);
            assert!(a.temporal_alpha <= b.temporal_alpha);
        }
    }
}

#[test]
fn denoise_never_weakens_as_gain_rises() {
    let at = |g: u8| (chroma_denoise_for_gain(g), temporal_luma_for_gain(g));
    assert_eq!(at(0), ((0, 0), 0));
    assert_eq!(at(16), ((3, 85), 70));
    for g in 0..16 {
        let ((r, s), t) = at(g);
        let ((r2, s2), t2) = at(g + 1);
        assert!(r <= r2 && s <= s2 && t <= t2);
    }
}

#[test]
fn output_is_cropped_to_a_standard_size() {
    assert_eq!(output_size(DebayerMode::Mhc), (1920, 1080));
    assert_eq!(output_size(DebayerMode::HalfRes), (960, 540));
}

#[test]
fn backends_resolve() {
    assert!(tries_gpu(Backend::Auto));
    assert!(tries_gpu(Backend::Gpu));
    assert!(!tries_gpu(Backend::Cpu));
    assert_eq!(choose_engine(Backend::Auto, true), EngineChoice::Gpu);
    assert_eq!(choose_engine(Backend::Auto, false), EngineChoice::CpuFallback);
    assert_eq!(choose_engine(Backend::Gpu, true), EngineChoice::Gpu);
    assert_eq!(choose_engine(Backend::Gpu, false), EngineChoice::Fail);
    assert_eq!(choose_engine(Backend::Cpu, true), EngineChoice::Cpu);
}

#[test]
fn gating_resolves() {
    assert_eq!(choose_gating(OnDemandMode::Off, true), Gating::AlwaysOn);
    assert_eq!(choose_gating(OnDemandMode::Auto, true), Gating::OnDemand);
    assert_eq!(choose_gating(OnDemandMode::On, true), Gating::OnDemand);
    assert_eq!(choose_gating(OnDemandMode::Auto, false), Gating::FallbackNoted);
    assert_eq!(choose_gating(OnDemandMode::On, false), Gating::FallbackWarned);
}

#[test]
fn draining_keeps_the_last_event() {
    let mut d = Drain::new();
    assert!(!d.take(Polled::Empty));
    assert_eq!(d.last, None);
    let mut d = Drain::new();
    assert!(d.take(Polled::Event(false)));
    assert!(d.take(Polled::Event(true)));
    assert!(!d.take(Polled::Failed));
    assert_eq!(d.last, Some(true));
}

#[test]
fn dwelling_feeds_standby_frames() {
    assert_eq!(dwell_step(Some(false), 5), DwellStep::Gone);
    assert_eq!(dwell_step(None, 0), DwellStep::Done);
    assert_eq!(dwell_step(Some(true), 5), DwellStep::Write { sleep: 5 });
    assert_eq!(dwell_step(None, u64::MAX), DwellStep::Write { sleep: STANDBY_PERIOD });
}

#[test]
fn camera_runs_only_on_demand() {
    let (mut s, duty) = OnDemand::start();
    assert_eq!(duty, Duty::Drain);
    assert_eq!(s.next(Happened::Drained(None)), Duty::WriteStandby);
    assert_eq!(s.next(Happened::StandbyWritten { ok: true }), Duty::Drain);
    assert_eq!(s.next(Happened::Drained(Some(false))), Duty::WriteStandby);
    assert_eq!(s.next(Happened::StandbyWritten { ok: true }), Duty::Drain);
    assert_eq!(s.next(Happened::Drained(Some(true))), Duty::RunSession);
    assert_eq!(s.next(Happened::SessionEnded(LiveExit::Idle)), Duty::Drain);
    assert_eq!(s.next(Happened::Drained(None)), Duty::WriteStandby);
    assert_eq!(s.next(Happened::StandbyWritten { ok: false }), Duty::Stop);
    assert_eq!(s.waiting, Waiting::Over);
}

#[test]
fn lost_sessions_are_reopened_until_the_bound() {
    let (mut s, _) = OnDemand::start();
    s.next(Happened::Drained(Some(true)));
    let lost = |frames| Happened::SessionEnded(LiveExit::Lost { reason: LostReason::Stalled, frames });
    for seconds in [0, 1, 2, 4, 8] {
        assert_eq!(s.next(lost(0)), Duty::Dwell { seconds });
        assert_eq!(s.next(Happened::Dwelled { stay: true }), Duty::RunSession);
    }
    let mut again = s;
    assert_eq!(again.next(lost(9)), Duty::Dwell { seconds: 0 });
    assert_eq!(again.next(Happened::Dwelled { stay: false }), Duty::Drain);
    assert_eq!(s.next(lost(0)), Duty::Stop);
    let (mut s, _) = OnDemand::start();
    s.next(Happened::Drained(Some(true)));
    assert_eq!(s.next(Happened::SessionEnded(LiveExit::Stop)), Duty::Stop);
}

#[test]
fn always_on_reopens_or_ends() {
    let lost = LiveExit::Lost { reason: LostReason::OpenFailed, frames: 0 };
    let mut a = Attempts::new();
    for seconds in [0, 1, 2, 4, 8] {
        assert_eq!(always_on(&mut a, lost), Onward::Reopen { seconds });
    }
    assert_eq!(always_on(&mut a, lost), Onward::Fail);
    assert_eq!(always_on(&mut a, LiveExit::Stop), Onward::Finish);
    assert_eq!(always_on(&mut a, LiveExit::Idle), Onward::Finish);
}

fn set(exposure: i32, gain_index: u8) -> AeState {
    AeState { exposure, gain_index, vblank: VBLANK_MIN }
}

#[test]
fn measurement_calibrates_then_steps_exposure_and_gain() {
    let (mut m, task) = Measure::start(100_000);
    assert_eq!(task, Task::Settle(set(exposure_max(VBLANK_MIN), 0)));
    assert_eq!(m.next(Seen::Calibrated(Verdict::Rescale(900))), Task::Settle(set(900, 0)));
    assert_eq!(m.next(Seen::Calibrated(Verdict::Good)), Task::Settle(set(300, 0)));
    assert_eq!(m.next(Seen::Settled), Task::Step(set(900, 0)));
    assert_eq!(m.next(Seen::Recorded), Task::Settle(set(450, 0)));
    assert_eq!(m.next(Seen::Settled), Task::Step(set(450, 4)));
    assert_eq!(m.next(Seen::Recorded), Task::Report);
    assert_eq!(m.stage, Stage::Over);
}

#[test]
fn calibration_is_bounded_and_stays_in_range() {
    let (mut m, task) = Measure::start(-5);
    assert_eq!(task, Task::Settle(set(EXPOSURE_MIN, 0)));
    for _ in 1..CAL_ITERS {
        assert_eq!(m.next(Seen::Calibrated(Verdict::Rescale(1))), Task::Settle(set(EXPOSURE_MIN, 0)));
    }
    // The last round is set but not settled; the step starts at the shortest exposure.
    assert_eq!(
        m.next(Seen::Calibrated(Verdict::Rescale(6))),
        Task::Rebase { scaled: set(6, 0), base: set(EXPOSURE_MIN, 0) }
    );
    assert_eq!(m.stage, Stage::ExposureBase);
    assert_eq!(m.exposure, 6);
    assert_eq!(m.next(Seen::Timeout), Task::Abort);
}

#[test]
fn delays_are_the_first_crossing() {
    let means = [Some(10), None, Some(14), Some(15), Some(20)];
    assert_eq!(detect_delay(Some(10), Some(20), 15, &means), Some(4));
    assert_eq!(detect_delay(Some(10), Some(20), 21, &means), None);
    assert_eq!(detect_delay(Some(20), Some(20), 15, &means), None);
    assert_eq!(detect_delay(None, Some(20), 15, &means), None);
    assert_eq!(detect_delay(Some(10), None, 15, &means), None);
    assert_eq!(plateau_start(16), 12);
    assert_eq!(plateau_start(3), 0);
    assert_eq!(suggested_settle(Some(2), Some(3)), Some(3));
    assert_eq!(suggested_settle(Some(4), Some(3)), Some(4));
    assert_eq!(suggested_settle(None, Some(3)), None);
}

#[test]
fn captures_are_named_and_counted() {
    assert!(!saves("-"));
    assert!(saves("-x"));
    assert_eq!(frame_name("out", 7), "out-007.bin");
    assert_eq!(frame_name("out", 42), "out-042.bin");
    assert_eq!(frame_name("a/b", 1234), "a/b-1234.bin");
    let mut d = Dump::new(AeConfig::default(), true, true, state(100), 2);
    assert!(d.wants_more());
    d.finish_frame();
    d.finish_frame();
    assert!(!d.wants_more());
}

#[test]
fn captures_keep_a_state_the_sensor_refused_to_leave() {
    let mut d = Dump::new(AeConfig::default(), true, true, state(100), 9);
    let next = d.metered(want(300)).unwrap();
    d.applied(next, false);
    assert_eq!((d.state, d.ae_hold), (state(100), 0));
    let next = d.metered(want(300)).unwrap();
    d.applied(next, true);
    assert_eq!((d.state, d.ae_hold), (state(300), AE_SETTLE));
    for _ in 0..AE_SETTLE {
        assert_eq!(d.metered(want(700)), None);
    }
    assert_eq!(d.metered(want(700)), Some(state(700)));
    assert_eq!(d.metered(None), None);
    let mut off = Dump::new(AeConfig::default(), false, true, state(100), 9);
    assert_eq!(off.metered(want(700)), None);
}

#[test]
fn metering_takes_every_fourth_pixel() {
    let rgb: Vec<u8> = (0..29).collect();
    assert_eq!(
        pixel_samples(&rgb),
        vec![
            Rgb8 { r: 0, g: 1, b: 2 },
            Rgb8 { r: 12, g: 13, b: 14 },
            Rgb8 { r: 24, g: 25, b: 26 }
        ]
    );
    assert_eq!(pixel_samples(&rgb[..26]).len(), 2);
    assert_eq!(pixel_samples(&rgb[..2]).len(), 0);
}

#[test]
fn every_frame_is_counted() {
    let mut l = live(false);
    for n in 0..30 {
        if n % 3 == 0 {
            l.next(Event::Request { dropped: 2, malformed: true });
        } else {
            request(&mut l);
            if n % 3 == 1 {
                l.next(Event::Skipped);
            } else if let Action::Apply(_) = l.next(Event::Written { demand: want(150) }) {
                l.next(Event::Applied { ok: true });
            }
        }
        assert_eq!(l.next(Event::Requeued { ok: true }), Action::Receive);
    }
    assert_eq!((l.frames, l.errors, l.dropped, l.ae_errors), (10, 20, 20, 0));
}
