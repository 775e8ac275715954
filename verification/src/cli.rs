//! Command lines of the three programs.
//!
//! Numbers with a fraction stay text here: each option keeps what it was given, in
//! order, and the caller reads it as a real number.

use vstd::prelude::*;

use crate::ae::MAX_GAIN_INDEX;
use crate::pipeline::processor::DebayerMode;
use crate::text::{
    digits, is_digit, law_digits_read_back, law_written_numbers_read_back, parse_i32,
    parse_unsigned, same, signed_spec, unsigned_spec,
};
use crate::video::supervise::{Backend, OnDemandMode};

verus! {

/// The texts of a list of strings.
pub open spec fn texts(args: Seq<String>) -> Seq<Seq<char>> {
    args.map_values(|s: String| s@)
}

/// The text of an optional string.
pub open spec fn text_of(s: Option<String>) -> Option<Seq<char>> {
    match s {
        Some(s) => Some(s@),
        None => None,
    }
}

/// The argument at a place, where there is one.
pub open spec fn arg_at(args: Seq<Seq<char>>, i: int) -> Option<Seq<char>> {
    if 0 <= i < args.len() {
        Some(args[i])
    } else {
        None
    }
}

/// The argument at a place, where there is one.
fn get(args: &[String], i: usize) -> (a: Option<String>)
    ensures
        text_of(a) == arg_at(texts(args@), i as int),
{
    if i < args.len() {
        Some(args[i].clone())
    } else {
        None
    }
}

/// The place after an option's value.
fn after_value(i: usize, n: usize) -> (j: usize)
    requires
        i < n,
    ensures
        j == past_value(i as int, n as int),
{
    if n - i > 2 {
        i + 2
    } else {
        n
    }
}

/// The place after an option and its value, or the end.
pub open spec fn past_value(i: int, n: int) -> int {
    if n - i > 2 {
        i + 2
    } else {
        n
    }
}

// ---------------------------------------------------------------------------
// The still-picture program.
// ---------------------------------------------------------------------------

/// What the still-picture program was asked for.
pub struct StillArgs {
    pub mode: DebayerMode,
    pub input: String,
    pub output: String,
}

/// The last debayer flag given, else full resolution.
pub open spec fn still_mode(args: Seq<Seq<char>>) -> DebayerMode
    decreases args.len(),
{
    if args.len() == 0 {
        DebayerMode::Mhc
    } else if args.last() == "--half"@ {
        DebayerMode::HalfRes
    } else if args.last() == "--mhc"@ {
        DebayerMode::Mhc
    } else {
        still_mode(args.drop_last())
    }
}

/// The arguments that are not flags, in order.
pub open spec fn still_positional(args: Seq<Seq<char>>) -> Seq<Seq<char>>
    decreases args.len(),
{
    if args.len() == 0 {
        Seq::empty()
    } else if args.last() == "--half"@ || args.last() == "--mhc"@ {
        still_positional(args.drop_last())
    } else {
        still_positional(args.drop_last()).push(args.last())
    }
}

/// Read `[--half|--mhc] <input> [output]`; the output defaults to `out.png`. `None`
/// when there is no input.
pub fn parse_still(args: &[String]) -> (r: Option<StillArgs>)
    ensures
        ({
            let positional = still_positional(texts(args@));
            match r {
                Some(a) => {
                    &&& positional.len() > 0
                    &&& a.mode == still_mode(texts(args@))
                    &&& a.input@ == positional[0]
                    &&& a.output@ == (if positional.len() > 1 {
                        positional[1]
                    } else {
                        "out.png"@
                    })
                },
                None => positional.len() == 0,
            }
        }),
{
    let mut mode: DebayerMode = DebayerMode::Mhc;
    let mut positional: Vec<String> = Vec::new();
    let mut i: usize = 0;
    while i < args.len()
        invariant
            i <= args.len(),
            mode == still_mode(texts(args@).take(i as int)),
            texts(positional@) == still_positional(texts(args@).take(i as int)),
        decreases args.len() - i,
    {
        let ghost before = positional@;
        proof {
            let next = texts(args@).take(i + 1);
            assert(next.drop_last() =~= texts(args@).take(i as int));
            assert(next.last() == args@[i as int]@);
        }
        if same(args[i].as_str(), "--half") {
            mode = DebayerMode::HalfRes;
        } else if same(args[i].as_str(), "--mhc") {
            mode = DebayerMode::Mhc;
        } else {
            positional.push(args[i].clone());
            proof {
                assert(texts(positional@) =~= texts(before).push(args@[i as int]@));
            }
        }
        i += 1;
    }
    proof {
        assert(texts(args@).take(args@.len() as int) =~= texts(args@));
    }
    if positional.len() == 0 {
        return None;
    }
    let input: String = positional[0].clone();
    let output: String = if positional.len() > 1 {
        positional[1].clone()
    } else {
        "out.png".to_owned()
    };
    proof {
        assert(texts(positional@)[0] == positional@[0]@);
        if positional.len() > 1 {
            assert(texts(positional@)[1] == positional@[1]@);
        }
    }
    Some(StillArgs { mode, input, output })
}

// ---------------------------------------------------------------------------
// The raw-capture program.
// ---------------------------------------------------------------------------

/// What the raw-capture program was asked for.
pub struct CaptureArgs {
    pub prefix: String,
    pub frames: usize,
    pub ae: bool,
    pub exposure: Option<i32>,
    pub gain: Option<u8>,
    pub vblank: Option<i32>,
    /// The frame-rate floor, as text.
    pub min_fps: Option<String>,
}

/// Why a program does not start.
#[derive(Debug, Clone, Copy, PartialEq, Eq, Structural)]
pub enum NoStart {
    /// Help was asked for.
    Help,
    /// What is required is missing.
    Usage,
}

/// What is known of the raw-capture program's arguments while they are read.
#[verifier::ext_equal]
pub struct CaptureView {
    pub prefix: Option<Seq<char>>,
    pub frames: Option<int>,
    pub ae: bool,
    pub exposure: Option<int>,
    pub gain: Option<int>,
    pub vblank: Option<int>,
    pub min_fps: Option<Seq<char>>,
}

/// An optional text read as a signed number.
pub open spec fn read_signed(s: Option<Seq<char>>) -> Option<int> {
    match s {
        Some(s) => signed_spec(s, i32::MIN as int, i32::MAX as int),
        None => None,
    }
}

/// An optional text read as an unsigned number of at most `max`.
pub open spec fn read_unsigned(s: Option<Seq<char>>, max: int) -> Option<int> {
    match s {
        Some(s) => unsigned_spec(s, max),
        None => None,
    }
}

/// The outcome of reading the arguments from place `i` on; `None` when help is
/// asked for.
pub open spec fn capture_from(args: Seq<Seq<char>>, i: int, v: CaptureView) -> Option<CaptureView>
    decreases args.len() - i,
{
    if i < 0 || i >= args.len() {
        Some(v)
    } else {
        let a = args[i];
        let value = arg_at(args, i + 1);
        let after = past_value(i, args.len() as int);
        if a == "--ae"@ {
            capture_from(args, i + 1, CaptureView { ae: true, ..v })
        } else if a == "--exposure"@ {
            capture_from(args, after, CaptureView { exposure: read_signed(value), ..v })
        } else if a == "--gain"@ {
            capture_from(args, after, CaptureView { gain: read_unsigned(value, 255), ..v })
        } else if a == "--vblank"@ {
            capture_from(args, after, CaptureView { vblank: read_signed(value), ..v })
        } else if a == "--min-fps"@ {
            capture_from(args, after, CaptureView { min_fps: value, ..v })
        } else if a == "-h"@ || a == "--help"@ {
            None
        } else if v.prefix is None {
            capture_from(args, i + 1, CaptureView { prefix: Some(a), ..v })
        } else if v.frames is None {
            capture_from(
                args,
                i + 1,
                CaptureView { frames: unsigned_spec(a, usize::MAX as int), ..v },
            )
        } else {
            capture_from(args, i + 1, v)
        }
    }
}

/// Nothing read yet.
pub open spec fn capture_blank() -> CaptureView {
    CaptureView {
        prefix: None,
        frames: None,
        ae: false,
        exposure: None,
        gain: None,
        vblank: None,
        min_fps: None,
    }
}

/// An exact optional number.
pub open spec fn opt_i32(v: Option<i32>) -> Option<int> {
    match v {
        Some(v) => Some(v as int),
        None => None,
    }
}

/// An exact optional number.
pub open spec fn opt_u8(v: Option<u8>) -> Option<int> {
    match v {
        Some(v) => Some(v as int),
        None => None,
    }
}

/// An exact optional number.
pub open spec fn opt_usize(v: Option<usize>) -> Option<int> {
    match v {
        Some(v) => Some(v as int),
        None => None,
    }
}

/// An optional argument read as a signed number.
fn to_signed(s: &Option<String>) -> (v: Option<i32>)
    ensures
        opt_i32(v) == read_signed(text_of(*s)),
{
    match s {
        Some(s) => parse_i32(s.as_str()),
        None => None,
    }
}

/// An optional argument read as a byte.
fn to_byte(s: &Option<String>) -> (v: Option<u8>)
    ensures
        opt_u8(v) == read_unsigned(text_of(*s), 255),
{
    match s {
        Some(s) => match parse_unsigned(s.as_str(), 255) {
            Some(v) => Some(v as u8),
            None => None,
        },
        None => None,
    }
}

/// An optional argument read as a count.
fn to_count(s: &Option<String>) -> (v: Option<usize>)
    ensures
        opt_usize(v) == read_unsigned(text_of(*s), usize::MAX as int),
{
    match s {
        Some(s) => match parse_unsigned(s.as_str(), usize::MAX as u64) {
            Some(v) => Some(v as usize),
            None => None,
        },
        None => None,
    }
}

/// Read `<out-prefix> [frames] [--ae] [--exposure <lines>] [--gain <idx>]
/// [--vblank <lines>] [--min-fps <fps>]`. The frame count defaults to 30 with
/// auto-exposure and to 5 without. A value that does not read as a number counts
/// as not given.
pub fn parse_capture(args: &[String]) -> (r: Result<CaptureArgs, NoStart>)
    ensures
        match capture_from(texts(args@), 0, capture_blank()) {
            None => r == Err::<CaptureArgs, NoStart>(NoStart::Help),
            Some(v) => match v.prefix {
                None => r == Err::<CaptureArgs, NoStart>(NoStart::Usage),
                Some(prefix) => match r {
                    Ok(a) => {
                        &&& a.prefix@ == prefix
                        &&& a.frames == (match v.frames {
                            Some(n) => n,
                            None => if v.ae {
                                30
                            } else {
                                5
                            },
                        })
                        &&& a.ae == v.ae
                        &&& opt_i32(a.exposure) == v.exposure
                        &&& opt_u8(a.gain) == v.gain
                        &&& opt_i32(a.vblank) == v.vblank
                        &&& text_of(a.min_fps) == v.min_fps
                    },
                    Err(_) => false,
                },
            },
        },
{
    let mut prefix: Option<String> = None;
    let mut frames: Option<usize> = None;
    let mut ae: bool = false;
    let mut exposure: Option<i32> = None;
    let mut gain: Option<u8> = None;
    let mut vblank: Option<i32> = None;
    let mut min_fps: Option<String> = None;
    let n: usize = args.len();
    let mut i: usize = 0;
    while i < n
        invariant
            n == args.len(),
            i <= n,
            capture_from(texts(args@), 0, capture_blank()) == capture_from(
                texts(args@),
                i as int,
                CaptureView {
                    prefix: text_of(prefix),
                    frames: opt_usize(frames),
                    ae,
                    exposure: opt_i32(exposure),
                    gain: opt_u8(gain),
                    vblank: opt_i32(vblank),
                    min_fps: text_of(min_fps),
                },
            ),
        decreases n - i,
    {
        let a: &str = args[i].as_str();
        let value: Option<String> = get(args, i + 1);
        if same(a, "--ae") {
            ae = true;
            i += 1;
        } else if same(a, "--exposure") {
            exposure = to_signed(&value);
            i = after_value(i, n);
        } else if same(a, "--gain") {
            gain = to_byte(&value);
            i = after_value(i, n);
        } else if same(a, "--vblank") {
            vblank = to_signed(&value);
            i = after_value(i, n);
        } else if same(a, "--min-fps") {
            min_fps = value;
            i = after_value(i, n);
        } else if same(a, "-h") || same(a, "--help") {
            return Err(NoStart::Help);
        } else if prefix.is_none() {
            prefix = Some(args[i].clone());
            i += 1;
        } else if frames.is_none() {
            frames = to_count(&Some(args[i].clone()));
            i += 1;
        } else {
            i += 1;
        }
    }
    match prefix {
        None => Err(NoStart::Usage),
        Some(prefix) => Ok(
            CaptureArgs {
                prefix,
                frames: match frames {
                    Some(n) => n,
                    None => if ae {
                        30
                    } else {
                        5
                    },
                },
                ae,
                exposure,
                gain,
                vblank,
                min_fps,
            },
        ),
    }
}

// ---------------------------------------------------------------------------
// The webcam program.
// ---------------------------------------------------------------------------

/// One setting of a denoise scaler.
pub enum Scale {
    /// Switched off.
    Zero,
    /// This text, if it reads as a real number.
    Given(String),
}

/// What the webcam program was asked for. The real-valued options hold every
/// value they were given, in order; one that does not read as a number leaves the
/// setting before it.
pub struct VideoArgs {
    pub device: String,
    /// Resolve the device by this label; wins over `device`.
    pub device_label: Option<String>,
    pub backend: Backend,
    pub mode: DebayerMode,
    pub ae: bool,
    pub target: Vec<String>,
    pub max_gain: u8,
    pub min_fps: Vec<String>,
    pub threads: usize,
    pub lca: bool,
    pub measure: bool,
    pub denoise: Vec<Scale>,
    pub temporal: Vec<Scale>,
    pub on_demand: OnDemandMode,
}

/// Why the webcam program does not start.
#[derive(Debug, Clone, PartialEq, Eq)]
pub enum VideoNoStart {
    /// Help was asked for.
    Help,
    /// No such backend, or none given.
    UnknownBackend(Option<String>),
    /// No such debayer mode, or none given.
    UnknownDebayer(Option<String>),
    /// No such on-demand mode, or none given.
    UnknownOnDemand(Option<String>),
    /// An argument that means nothing.
    Unexpected(String),
}

/// One setting of a denoise scaler; `None` is off.
pub open spec fn scale_text(s: Scale) -> Option<Seq<char>> {
    match s {
        Scale::Zero => None,
        Scale::Given(t) => Some(t@),
    }
}

/// The settings of a denoise scaler.
pub open spec fn scale_texts(v: Seq<Scale>) -> Seq<Option<Seq<char>>> {
    v.map_values(|s: Scale| scale_text(s))
}

/// What is known of the webcam program's arguments while they are read.
pub struct VideoView {
    pub device: Seq<char>,
    pub device_label: Option<Seq<char>>,
    pub backend: Backend,
    pub mode: DebayerMode,
    pub ae: bool,
    pub target: Seq<Seq<char>>,
    pub max_gain: int,
    pub min_fps: Seq<Seq<char>>,
    pub threads: int,
    pub lca: bool,
    pub measure: bool,
    pub denoise: Seq<Option<Seq<char>>>,
    pub temporal: Seq<Option<Seq<char>>>,
    pub on_demand: OnDemandMode,
}

/// Why the webcam program does not start, by text.
pub enum VideoRefusal {
    Help,
    UnknownBackend(Option<Seq<char>>),
    UnknownDebayer(Option<Seq<char>>),
    UnknownOnDemand(Option<Seq<char>>),
    Unexpected(Seq<char>),
}

/// The texts of a refusal.
pub open spec fn refusal_of(e: VideoNoStart) -> VideoRefusal {
    match e {
        VideoNoStart::Help => VideoRefusal::Help,
        VideoNoStart::UnknownBackend(s) => VideoRefusal::UnknownBackend(text_of(s)),
        VideoNoStart::UnknownDebayer(s) => VideoRefusal::UnknownDebayer(text_of(s)),
        VideoNoStart::UnknownOnDemand(s) => VideoRefusal::UnknownOnDemand(text_of(s)),
        VideoNoStart::Unexpected(s) => VideoRefusal::Unexpected(s@),
    }
}

/// The texts of the arguments.
pub open spec fn view_of(a: VideoArgs) -> VideoView {
    VideoView {
        device: a.device@,
        device_label: text_of(a.device_label),
        backend: a.backend,
        mode: a.mode,
        ae: a.ae,
        target: texts(a.target@),
        max_gain: a.max_gain as int,
        min_fps: texts(a.min_fps@),
        threads: a.threads as int,
        lca: a.lca,
        measure: a.measure,
        denoise: scale_texts(a.denoise@),
        temporal: scale_texts(a.temporal@),
        on_demand: a.on_demand,
    }
}

/// The defaults: full resolution, eight threads, auto-exposure and aberration
/// correction on.
pub open spec fn video_defaults() -> VideoView {
    VideoView {
        device: "/dev/video0"@,
        device_label: None,
        backend: Backend::Auto,
        mode: DebayerMode::Mhc,
        ae: true,
        target: Seq::empty(),
        max_gain: MAX_GAIN_INDEX as int,
        min_fps: Seq::empty(),
        threads: 8,
        lca: true,
        measure: false,
        denoise: Seq::empty(),
        temporal: Seq::empty(),
        on_demand: OnDemandMode::Auto,
    }
}

/// A list with a value appended, where there is one.
pub open spec fn with_given<T>(v: Seq<T>, value: Option<T>) -> Seq<T> {
    match value {
        Some(t) => v.push(t),
        None => v,
    }
}

/// A scaler's settings with a text appended, where there is one.
pub open spec fn with_scale(v: Seq<Option<Seq<char>>>, value: Option<Seq<char>>) -> Seq<
    Option<Seq<char>>,
> {
    match value {
        Some(t) => v.push(Some(t)),
        None => v,
    }
}

/// The outcome of reading the arguments from place `i` on.
pub open spec fn video_from(args: Seq<Seq<char>>, i: int, v: VideoView) -> Result<
    VideoView,
    VideoRefusal,
>
    decreases args.len() - i,
{
    if i < 0 || i >= args.len() {
        Ok(v)
    } else {
        let a = args[i];
        let value = arg_at(args, i + 1);
        let after = past_value(i, args.len() as int);
        if a == "--device"@ {
            video_from(
                args,
                after,
                VideoView {
                    device: match value {
                        Some(s) => s,
                        None => v.device,
                    },
                    ..v
                },
            )
        } else if a == "--device-label"@ {
            video_from(
                args,
                after,
                VideoView {
                    device_label: match value {
                        Some(s) => Some(s),
                        None => v.device_label,
                    },
                    ..v
                },
            )
        } else if a == "--backend"@ {
            if value == Some("auto"@) {
                video_from(args, after, VideoView { backend: Backend::Auto, ..v })
            } else if value == Some("cpu"@) {
                video_from(args, after, VideoView { backend: Backend::Cpu, ..v })
            } else if value == Some("gpu"@) {
                video_from(args, after, VideoView { backend: Backend::Gpu, ..v })
            } else {
                Err(VideoRefusal::UnknownBackend(value))
            }
        } else if a == "--debayer"@ {
            if value == Some("half"@) {
                video_from(args, after, VideoView { mode: DebayerMode::HalfRes, ..v })
            } else if value == Some("mhc"@) {
                video_from(args, after, VideoView { mode: DebayerMode::Mhc, ..v })
            } else {
                Err(VideoRefusal::UnknownDebayer(value))
            }
        } else if a == "--no-ae"@ {
            video_from(args, i + 1, VideoView { ae: false, ..v })
        } else if a == "--no-lca"@ {
            video_from(args, i + 1, VideoView { lca: false, ..v })
        } else if a == "--no-denoise"@ {
            video_from(args, i + 1, VideoView { denoise: v.denoise.push(None), ..v })
        } else if a == "--denoise"@ {
            video_from(args, after, VideoView { denoise: with_scale(v.denoise, value), ..v })
        } else if a == "--no-temporal"@ {
            video_from(args, i + 1, VideoView { temporal: v.temporal.push(None), ..v })
        } else if a == "--temporal"@ {
            video_from(args, after, VideoView { temporal: with_scale(v.temporal, value), ..v })
        } else if a == "--measure-delay"@ {
            video_from(args, i + 1, VideoView { measure: true, ..v })
        } else if a == "--on-demand"@ {
            if value == Some("auto"@) {
                video_from(args, after, VideoView { on_demand: OnDemandMode::Auto, ..v })
            } else if value == Some("on"@) {
                video_from(args, after, VideoView { on_demand: OnDemandMode::On, ..v })
            } else if value == Some("off"@) {
                video_from(args, after, VideoView { on_demand: OnDemandMode::Off, ..v })
            } else {
                Err(VideoRefusal::UnknownOnDemand(value))
            }
        } else if a == "--target"@ {
            video_from(args, after, VideoView { target: with_given(v.target, value), ..v })
        } else if a == "--max-gain"@ {
            video_from(
                args,
                after,
                VideoView {
                    max_gain: match read_unsigned(value, 255) {
                        Some(g) => g,
                        None => v.max_gain,
                    },
                    ..v
                },
            )
        } else if a == "--min-fps"@ {
            video_from(args, after, VideoView { min_fps: with_given(v.min_fps, value), ..v })
        } else if a == "--threads"@ {
            let n = match read_unsigned(value, usize::MAX as int) {
                Some(n) => n,
                None => v.threads,
            };
            video_from(
                args,
                after,
                VideoView {
                    threads: if n < 1 {
                        1
                    } else {
                        n
                    },
                    ..v
                },
            )
        } else if a == "-h"@ || a == "--help"@ {
            Err(VideoRefusal::Help)
        } else {
            Err(VideoRefusal::Unexpected(a))
        }
    }
}

/// Is an optional argument this text?
fn is_text(value: &Option<String>, t: &str) -> (r: bool)
    ensures
        r == (text_of(*value) == Some(t@)),
{
    match value {
        Some(s) => same(s.as_str(), t),
        None => false,
    }
}

/// Append a value, where there is one.
fn push_given(v: &mut Vec<String>, value: Option<String>)
    ensures
        texts(final(v)@) == with_given(texts(old(v)@), text_of(value)),
{
    if let Some(s) = value {
        v.push(s);
        assert(texts(v@) =~= texts(old(v)@).push(s@));
    }
}

/// Append a setting.
fn push_scale(v: &mut Vec<Scale>, s: Scale)
    ensures
        scale_texts(final(v)@) == scale_texts(old(v)@).push(scale_text(s)),
{
    v.push(s);
    assert(scale_texts(v@) =~= scale_texts(old(v)@).push(scale_text(s)));
}

/// Append a setting by text, where there is one.
fn push_scale_given(v: &mut Vec<Scale>, value: Option<String>)
    ensures
        scale_texts(final(v)@) == with_scale(scale_texts(old(v)@), text_of(value)),
{
    if let Some(s) = value {
        push_scale(v, Scale::Given(s));
    }
}

/// Read the webcam program's options. Unknown options, backends and modes are
/// refused; a number that does not read as one leaves the setting as it was.
pub fn parse_video(args: &[String]) -> (r: Result<VideoArgs, VideoNoStart>)
    ensures
        match (r, video_from(texts(args@), 0, video_defaults())) {
            (Ok(a), Ok(v)) => view_of(a) == v,
            (Err(e), Err(why)) => refusal_of(e) == why,
            _ => false,
        },
        r matches Ok(a) ==> a.threads >= 1,
{
    let mut v = VideoArgs {
        device: "/dev/video0".to_owned(),
        device_label: None,
        backend: Backend::Auto,
        mode: DebayerMode::Mhc,
        ae: true,
        target: Vec::new(),
        max_gain: MAX_GAIN_INDEX,
        min_fps: Vec::new(),
        threads: 8,
        lca: true,
        measure: false,
        denoise: Vec::new(),
        temporal: Vec::new(),
        on_demand: OnDemandMode::Auto,
    };
    let n: usize = args.len();
    let mut i: usize = 0;
    proof {
        assert(view_of(v).target =~= Seq::<Seq<char>>::empty());
        assert(view_of(v).min_fps =~= Seq::<Seq<char>>::empty());
        assert(view_of(v).denoise =~= Seq::<Option<Seq<char>>>::empty());
        assert(view_of(v).temporal =~= Seq::<Option<Seq<char>>>::empty());
    }
    while i < n
        invariant
            n == args.len(),
            i <= n,
            v.threads >= 1,
            video_from(texts(args@), 0, video_defaults()) == video_from(
                texts(args@),
                i as int,
                view_of(v),
            ),
        decreases n - i,
    {
        let a: &str = args[i].as_str();
        let value: Option<String> = get(args, i + 1);
        let after: usize = after_value(i, n);
        if same(a, "--device") {
            if let Some(s) = value {
                v.device = s;
            }
            i = after;
        } else if same(a, "--device-label") {
            if let Some(s) = value {
                v.device_label = Some(s);
            }
            i = after;
        } else if same(a, "--backend") {
            if is_text(&value, "auto") {
                v.backend = Backend::Auto;
            } else if is_text(&value, "cpu") {
                v.backend = Backend::Cpu;
            } else if is_text(&value, "gpu") {
                v.backend = Backend::Gpu;
            } else {
                return Err(VideoNoStart::UnknownBackend(value));
            }
            i = after;
        } else if same(a, "--debayer") {
            if is_text(&value, "half") {
                v.mode = DebayerMode::HalfRes;
            } else if is_text(&value, "mhc") {
                v.mode = DebayerMode::Mhc;
            } else {
                return Err(VideoNoStart::UnknownDebayer(value));
            }
            i = after;
        } else if same(a, "--no-ae") {
            v.ae = false;
            i += 1;
        } else if same(a, "--no-lca") {
            v.lca = false;
            i += 1;
        } else if same(a, "--no-denoise") {
            push_scale(&mut v.denoise, Scale::Zero);
            i += 1;
        } else if same(a, "--denoise") {
            push_scale_given(&mut v.denoise, value);
            i = after;
        } else if same(a, "--no-temporal") {
            push_scale(&mut v.temporal, Scale::Zero);
            i += 1;
        } else if same(a, "--temporal") {
            push_scale_given(&mut v.temporal, value);
            i = after;
        } else if same(a, "--measure-delay") {
            v.measure = true;
            i += 1;
        } else if same(a, "--on-demand") {
            if is_text(&value, "auto") {
                v.on_demand = OnDemandMode::Auto;
            } else if is_text(&value, "on") {
                v.on_demand = OnDemandMode::On;
            } else if is_text(&value, "off") {
                v.on_demand = OnDemandMode::Off;
            } else {
                return Err(VideoNoStart::UnknownOnDemand(value));
            }
            i = after;
        } else if same(a, "--target") {
            push_given(&mut v.target, value);
            i = after;
        } else if same(a, "--max-gain") {
            if let Some(g) = to_byte(&value) {
                v.max_gain = g;
            }
            i = after;
        } else if same(a, "--min-fps") {
            push_given(&mut v.min_fps, value);
            i = after;
        } else if same(a, "--threads") {
            if let Some(t) = to_count(&value) {
                v.threads = t;
            }
            if v.threads < 1 {
                v.threads = 1;
            }
            i = after;
        } else if same(a, "-h") || same(a, "--help") {
            return Err(VideoNoStart::Help);
        } else {
            return Err(VideoNoStart::Unexpected(args[i].clone()));
        }
    }
    Ok(v)
}

/// The options and modes are different words.
proof fn lemma_words_differ()
    ensures
        "--device"@.len() == 8,
        "--device"@[2] == 'd',
        "--device-label"@.len() == 14,
        "--device-label"@[2] == 'd',
        "--backend"@.len() == 9,
        "--backend"@[2] == 'b',
        "--debayer"@.len() == 9,
        "--debayer"@[2] == 'd',
        "--debayer"@[4] == 'b',
        "--no-ae"@.len() == 7,
        "--no-ae"@[2] == 'n',
        "--no-lca"@.len() == 8,
        "--no-lca"@[2] == 'n',
        "--no-denoise"@.len() == 12,
        "--no-denoise"@[2] == 'n',
        "--denoise"@.len() == 9,
        "--denoise"@[2] == 'd',
        "--denoise"@[4] == 'n',
        "--no-temporal"@.len() == 13,
        "--no-temporal"@[2] == 'n',
        "--temporal"@.len() == 10,
        "--temporal"@[2] == 't',
        "--measure-delay"@.len() == 15,
        "--measure-delay"@[2] == 'm',
        "--on-demand"@.len() == 11,
        "--on-demand"@[2] == 'o',
        "--target"@.len() == 8,
        "--target"@[2] == 't',
        "--max-gain"@.len() == 10,
        "--max-gain"@[2] == 'm',
        "--min-fps"@.len() == 9,
        "--min-fps"@[2] == 'm',
        "--threads"@.len() == 9,
        "--threads"@[2] == 't',
        "-h"@.len() == 2,
        "-h"@[0] == '-',
        "--help"@.len() == 6,
        "--help"@[2] == 'h',
        "--ae"@.len() == 4,
        "--ae"@[2] == 'a',
        "--exposure"@.len() == 10,
        "--exposure"@[2] == 'e',
        "--gain"@.len() == 6,
        "--gain"@[2] == 'g',
        "--vblank"@.len() == 8,
        "--vblank"@[2] == 'v',
        "--half"@.len() == 6,
        "--half"@[2] == 'h',
        "--mhc"@.len() == 5,
        "--mhc"@[2] == 'm',
        "auto"@.len() == 4,
        "auto"@[0] == 'a',
        "cpu"@.len() == 3,
        "cpu"@[0] == 'c',
        "gpu"@.len() == 3,
        "gpu"@[0] == 'g',
        "half"@.len() == 4,
        "half"@[0] == 'h',
        "mhc"@.len() == 3,
        "mhc"@[0] == 'm',
        "on"@.len() == 2,
        "on"@[0] == 'o',
        "off"@.len() == 3,
        "off"@[0] == 'o',
{
    reveal_strlit("--device");
    reveal_strlit("--device-label");
    reveal_strlit("--backend");
    reveal_strlit("--debayer");
    reveal_strlit("--no-ae");
    reveal_strlit("--no-lca");
    reveal_strlit("--no-denoise");
    reveal_strlit("--denoise");
    reveal_strlit("--no-temporal");
    reveal_strlit("--temporal");
    reveal_strlit("--measure-delay");
    reveal_strlit("--on-demand");
    reveal_strlit("--target");
    reveal_strlit("--max-gain");
    reveal_strlit("--min-fps");
    reveal_strlit("--threads");
    reveal_strlit("-h");
    reveal_strlit("--help");
    reveal_strlit("--ae");
    reveal_strlit("--exposure");
    reveal_strlit("--gain");
    reveal_strlit("--vblank");
    reveal_strlit("--half");
    reveal_strlit("--mhc");
    reveal_strlit("auto");
    reveal_strlit("cpu");
    reveal_strlit("gpu");
    reveal_strlit("half");
    reveal_strlit("mhc");
    reveal_strlit("on");
    reveal_strlit("off");
}

/// What a backend is called.
pub open spec fn backend_name(b: Backend) -> Seq<char> {
    match b {
        Backend::Auto => "auto"@,
        Backend::Cpu => "cpu"@,
        Backend::Gpu => "gpu"@,
    }
}

/// What a debayer mode is called.
pub open spec fn debayer_name(m: DebayerMode) -> Seq<char> {
    match m {
        DebayerMode::HalfRes => "half"@,
        DebayerMode::Mhc => "mhc"@,
    }
}

/// What an on-demand mode is called.
pub open spec fn on_demand_name(m: OnDemandMode) -> Seq<char> {
    match m {
        OnDemandMode::Auto => "auto"@,
        OnDemandMode::On => "on"@,
        OnDemandMode::Off => "off"@,
    }
}

/// Every mode is chosen by its name: an option that takes a mode sets the one that the
/// argument behind it names, moves nothing else, and reading goes on behind that.
pub proof fn law_modes_are_chosen_by_name(
    args: Seq<Seq<char>>,
    i: int,
    v: VideoView,
    b: Backend,
    m: DebayerMode,
    o: OnDemandMode,
)
    requires
        0 <= i,
        i + 1 < args.len(),
    ensures
        args[i] == "--backend"@ && args[i + 1] == backend_name(b) ==> video_from(args, i, v)
            == video_from(args, i + 2, VideoView { backend: b, ..v }),
        args[i] == "--debayer"@ && args[i + 1] == debayer_name(m) ==> video_from(args, i, v)
            == video_from(args, i + 2, VideoView { mode: m, ..v }),
        args[i] == "--on-demand"@ && args[i + 1] == on_demand_name(o) ==> video_from(args, i, v)
            == video_from(args, i + 2, VideoView { on_demand: o, ..v }),
{
    lemma_words_differ();
}

/// A number behind a webcam option is the number that is set, where it is one the setting
/// can hold; otherwise the setting stays. There is always a thread.
pub proof fn law_video_numbers_are_set(args: Seq<Seq<char>>, i: int, v: VideoView, n: nat)
    requires
        0 <= i,
        i + 1 < args.len(),
        args[i + 1] == digits(n),
    ensures
        args[i] == "--max-gain"@ ==> video_from(args, i, v) == video_from(
            args,
            i + 2,
            VideoView {
                max_gain: if n <= 255 {
                    n as int
                } else {
                    v.max_gain
                },
                ..v
            },
        ),
        args[i] == "--threads"@ && 1 <= n <= usize::MAX ==> video_from(args, i, v) == video_from(
            args,
            i + 2,
            VideoView { threads: n as int, ..v },
        ),
        args[i] == "--threads"@ && n == 0 ==> video_from(args, i, v) == video_from(
            args,
            i + 2,
            VideoView { threads: 1, ..v },
        ),
{
    lemma_words_differ();
    law_written_numbers_read_back(n, 0, 255);
    law_written_numbers_read_back(n, 0, usize::MAX as int);
}

/// The texts behind the webcam options with a fraction are kept in the order in which they
/// were given, each with its own option, and a scaler that is switched off is switched off
/// in that order too.
pub proof fn law_video_texts_are_kept(args: Seq<Seq<char>>, i: int, v: VideoView)
    requires
        0 <= i,
        i + 1 < args.len(),
    ensures
        args[i] == "--target"@ ==> video_from(args, i, v) == video_from(
            args,
            i + 2,
            VideoView { target: v.target.push(args[i + 1]), ..v },
        ),
        args[i] == "--min-fps"@ ==> video_from(args, i, v) == video_from(
            args,
            i + 2,
            VideoView { min_fps: v.min_fps.push(args[i + 1]), ..v },
        ),
        args[i] == "--denoise"@ ==> video_from(args, i, v) == video_from(
            args,
            i + 2,
            VideoView { denoise: v.denoise.push(Some(args[i + 1])), ..v },
        ),
        args[i] == "--temporal"@ ==> video_from(args, i, v) == video_from(
            args,
            i + 2,
            VideoView { temporal: v.temporal.push(Some(args[i + 1])), ..v },
        ),
        args[i] == "--no-denoise"@ ==> video_from(args, i, v) == video_from(
            args,
            i + 1,
            VideoView { denoise: v.denoise.push(None), ..v },
        ),
        args[i] == "--no-temporal"@ ==> video_from(args, i, v) == video_from(
            args,
            i + 1,
            VideoView { temporal: v.temporal.push(None), ..v },
        ),
        args[i] == "--device"@ ==> video_from(args, i, v) == video_from(
            args,
            i + 2,
            VideoView { device: args[i + 1], ..v },
        ),
        args[i] == "--device-label"@ ==> video_from(args, i, v) == video_from(
            args,
            i + 2,
            VideoView { device_label: Some(args[i + 1]), ..v },
        ),
{
    lemma_words_differ();
}

/// A number behind a capture option is the number that is set: an exposure or a blanking of
/// either sign, a gain of at most 255. The argument behind the prefix is the frame count.
pub proof fn law_capture_numbers_are_set(args: Seq<Seq<char>>, i: int, v: CaptureView, n: nat)
    requires
        0 <= i,
        i + 1 < args.len(),
        args[i + 1] == digits(n),
    ensures
        args[i] == "--exposure"@ && n <= i32::MAX ==> capture_from(args, i, v) == capture_from(
            args,
            i + 2,
            CaptureView { exposure: Some(n as int), ..v },
        ),
        args[i] == "--vblank"@ && n <= i32::MAX ==> capture_from(args, i, v) == capture_from(
            args,
            i + 2,
            CaptureView { vblank: Some(n as int), ..v },
        ),
        args[i] == "--gain"@ ==> capture_from(args, i, v) == capture_from(
            args,
            i + 2,
            CaptureView {
                gain: if n <= 255 {
                    Some(n as int)
                } else {
                    None
                },
                ..v
            },
        ),
        args[i] == "--min-fps"@ ==> capture_from(args, i, v) == capture_from(
            args,
            i + 2,
            CaptureView { min_fps: Some(args[i + 1]), ..v },
        ),
        v.prefix is Some && v.frames is None && n <= usize::MAX ==> capture_from(args, i + 1, v)
            == capture_from(args, i + 2, CaptureView { frames: Some(n as int), ..v }),
{
    lemma_words_differ();
    law_digits_read_back(n);
    law_written_numbers_read_back(n, i32::MIN as int, i32::MAX as int);
    law_written_numbers_read_back(n, 0, 255);
    law_written_numbers_read_back(n, 0, usize::MAX as int);
    let d = args[i + 1];
    assert(is_digit(d[0]));
}

/// Flags of the still-picture program may stand anywhere: they are no part of the other
/// arguments, and the last one counts.
pub proof fn law_still_flags_stand_anywhere(before: Seq<Seq<char>>, after: Seq<Seq<char>>, half: bool)
    ensures
        ({
            let flag = if half {
                "--half"@
            } else {
                "--mhc"@
            };
            let with = before.push(flag) + after;
            &&& still_positional(with) == still_positional(before + after)
            &&& (forall|i: int|
                0 <= i < after.len() ==> #[trigger] after[i] != "--half"@ && after[i] != "--mhc"@)
                ==> still_mode(with) == (if half {
                DebayerMode::HalfRes
            } else {
                DebayerMode::Mhc
            })
        }),
    decreases after.len(),
{
    lemma_words_differ();
    let flag = if half {
        "--half"@
    } else {
        "--mhc"@
    };
    let with = before.push(flag) + after;
    if after.len() == 0 {
        assert(with =~= before.push(flag));
        assert(with.drop_last() =~= before);
        assert(before + after =~= before);
    } else {
        let fewer = after.drop_last();
        law_still_flags_stand_anywhere(before, fewer, half);
        assert(with.drop_last() =~= before.push(flag) + fewer);
        assert((before + after).drop_last() =~= before + fewer);
        assert(with.last() == after.last() && (before + after).last() == after.last());
        if forall|i: int|
            0 <= i < after.len() ==> #[trigger] after[i] != "--half"@ && after[i] != "--mhc"@ {
            assert forall|i: int| 0 <= i < fewer.len() implies #[trigger] fewer[i] != "--half"@
                && fewer[i] != "--mhc"@ by {
                assert(fewer[i] == after[i]);
            }
            assert(after.last() == after[after.len() - 1]);
        }
    }
}

/// The other arguments of the still-picture program are kept, all of them and in order.
pub proof fn law_still_arguments_are_kept(args: Seq<Seq<char>>)
    requires
        forall|i: int|
            0 <= i < args.len() ==> #[trigger] args[i] != "--half"@ && args[i] != "--mhc"@,
    ensures
        still_positional(args) == args,
        still_mode(args) == DebayerMode::Mhc,
    decreases args.len(),
{
    if args.len() > 0 {
        let fewer = args.drop_last();
        assert forall|i: int| 0 <= i < fewer.len() implies #[trigger] fewer[i] != "--half"@
            && fewer[i] != "--mhc"@ by {
            assert(fewer[i] == args[i]);
        }
        law_still_arguments_are_kept(fewer);
        assert(args.last() == args[args.len() - 1]);
        assert(fewer.push(args.last()) =~= args);
    } else {
        assert(args =~= Seq::empty());
    }
}

} // verus!
