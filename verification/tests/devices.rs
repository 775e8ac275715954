//! Sensor, camera, GPU layout, pictures, text and command lines.

use gc2607_isp::ae::AeState;
use gc2607_isp::camera::{accept_configuration, choose_camera, used_bytes, Listed, Validation};
use gc2607_isp::cli::{
    parse_capture, parse_still, parse_video, NoStart, Scale, VideoNoStart,
};
use gc2607_isp::gpu::{
    acm_bytes, binding, buffer_size, check_readback, groups, lca_bytes, out_dims, params_bytes,
    passes, upload_bytes, Access, Buffer, DenoiseParams, Params, Pass, Schedule, BINDINGS, YUYV_BYTES,
};
use gc2607_isp::output::loopback::{find_labelled, LabelledNode};
use gc2607_isp::picture::{format_of, png, ppm, Format, PngError};
use gc2607_isp::pipeline::bayer::Site;
use gc2607_isp::pipeline::lca::Lca;
use gc2607_isp::pipeline::processor::DebayerMode;
use gc2607_isp::raw::{RawTooSmall, RAW_BYTES};
use gc2607_isp::sensor::{
    find_sensor, is_sensor, override_state, seed_state, writes, Node, V4L2_CID_ANALOGUE_GAIN,
    V4L2_CID_EXPOSURE, V4L2_CID_VBLANK,
};
use gc2607_isp::text::{
    ends_with, parse_i32, parse_unsigned, push_decimal, same, starts_with, trimmed_starts_with,
};
use gc2607_isp::video::supervise::{Backend, OnDemandMode};

#[test]
fn blanking_is_written_before_exposure_and_gain() {
    let w = writes(AeState { exposure: 700, gain_index: 5, vblank: 300 });
    assert_eq!(
        [(w[0].id, w[0].value), (w[1].id, w[1].value), (w[2].id, w[2].value)],
        [(V4L2_CID_VBLANK, 300), (V4L2_CID_EXPOSURE, 700), (V4L2_CID_ANALOGUE_GAIN, 5)]
    );
}

#[test]
fn sessions_start_from_what_the_sensor_holds() {
    assert_eq!(seed_state(None, None, None), AeState { exposure: 625, gain_index: 0, vblank: 162 });
    assert_eq!(
        seed_state(Some(9), Some(99), Some(7)),
        AeState { exposure: 9, gain_index: 16, vblank: 7 }
    );
    assert_eq!(seed_state(None, Some(-3), None).gain_index, 0);
    let s = AeState { exposure: 1, gain_index: 2, vblank: 3 };
    assert_eq!(override_state(s, None, None, None), s);
    assert_eq!(
        override_state(s, Some(10), Some(200), Some(30)),
        AeState { exposure: 10, gain_index: 16, vblank: 30 }
    );
}

#[test]
fn sensor_is_found_by_name() {
    assert!(is_sensor("v4l-subdev7", " \tgc2607 3-0037\n"));
    assert!(!is_sensor("video0", "gc2607 3-0037"));
    assert!(!is_sensor("v4l-subdev7", "ov2740 3-0037"));
    assert!(!is_sensor("v4l-subdev7", "\u{200b}gc2607"));
    assert!(is_sensor("v4l-subdev7", "\u{2003}\u{3000}gc2607"));
    let node = |n: &str, l: &str| Node { name: n.to_string(), label: l.to_string() };
    let nodes = [node("v4l-subdev0", "isp"), node("v4l-subdev1", "gc2607 1"), node("v4l-subdev2", "gc2607 2")];
    assert_eq!(find_sensor(&nodes), Some(1));
    assert_eq!(find_sensor(&nodes[..1]), None);
    assert_eq!(find_sensor(&[]), None);
}

#[test]
fn camera_is_chosen_by_model() {
    let cam = |m: Option<&str>, id: &str| Listed { model: m.map(|m| m.to_string()), id: id.to_string() };
    let list = [cam(None, "usb"), cam(Some("gc2607"), "a"), cam(Some("gc2607"), "b")];
    assert_eq!(choose_camera(&list), Ok(1));
    let other = [cam(None, "usb"), cam(Some("ov"), "x")];
    assert_eq!(
        choose_camera(&other),
        Err("GC2607 camera (Model \"gc2607\") not found; available cameras: [? (usb), ov (x)]".to_string())
    );
    assert_eq!(
        choose_camera(&[]),
        Err("GC2607 camera (Model \"gc2607\") not found; available cameras: []".to_string())
    );
    assert_eq!(accept_configuration(Validation::Valid), Some(false));
    assert_eq!(accept_configuration(Validation::Adjusted), Some(true));
    assert_eq!(accept_configuration(Validation::Invalid), None);
    assert_eq!(used_bytes(8, 7), None);
    assert_eq!(used_bytes(7, 7), Some(7));
    assert_eq!(used_bytes(5, 7), Some(5));
}

fn blank_params() -> Params {
    let z = [0u32; 4];
    Params {
        dims: z,
        out_dims: z,
        misc: z,
        consts: z,
        gains: z,
        ccm0: z,
        ccm1: z,
        ccm2: z,
        lca: z,
        acm_cfg: z,
        dn_i: z,
        dn_f: z,
    }
}

fn dn(radius: u32, strong: bool, weight: bool) -> DenoiseParams {
    DenoiseParams {
        chroma_radius: radius,
        chroma_strength: 0.5f32.to_bits(),
        temporal_alpha: 0.25f32.to_bits(),
        temporal_motion: 12.0f32.to_bits(),
        strong,
        weight,
    }
}

#[test]
fn uniform_block_is_laid_out_in_order() {
    let mut p = blank_params();
    p.set_geometry();
    let mut s = Schedule::new(8, true);
    let flags = s.denoise(dn(2, true, true));
    p.set_denoise(dn(2, true, true), flags);
    p.set_estimate([1, 2, 3], [11, 12, 13, 14, 15, 16, 17, 18, 19]);
    let bytes = params_bytes(&p);
    assert_eq!(bytes.len(), 192);
    let word = |k: usize| u32::from_ne_bytes([bytes[4 * k], bytes[4 * k + 1], bytes[4 * k + 2], bytes[4 * k + 3]]);
    let words: Vec<u32> = (0..48).map(word).collect();
    assert_eq!(&words[0..4], &[1928, 1088, 964, 544]);
    assert_eq!(&words[4..8], &[1920, 1080, 4, 4]);
    assert_eq!(&words[8..12], &[1952, 960, 0, 0]);
    assert_eq!(&words[16..20], &[1, 2, 3, 0]);
    assert_eq!(&words[20..24], &[11, 12, 13, 0]);
    assert_eq!(&words[24..28], &[14, 15, 16, 0]);
    assert_eq!(&words[28..32], &[17, 18, 19, 0]);
    assert_eq!(&words[40..44], &[2, 1, 1, 1]);
    assert_eq!(&words[44..48], &[0.5f32.to_bits(), 0.25f32.to_bits(), 12.0f32.to_bits(), 0]);
    assert_eq!(p.words(), words);
}

#[test]
fn uploads_hold_the_machine_words() {
    let words = [0x0102_0304u32, 7];
    let bytes = upload_bytes(&words);
    assert_eq!(bytes[..4], words[0].to_ne_bytes());
    assert_eq!(bytes[4..], words[1].to_ne_bytes());
    let l = Lca { gh: 1, gw: 1, bx: vec![1], by: vec![2], rx: vec![3], ry: vec![4] };
    assert_eq!(lca_bytes(&l), upload_bytes(&[1, 2, 3, 4]));
    let mats = [[1, 2, 3, 4, 5, 6, 7, 8, 9], [10, 11, 12, 13, 14, 15, 16, 17, 18]];
    assert_eq!(acm_bytes(&mats), upload_bytes(&(1..19).collect::<Vec<u32>>()));
}

#[test]
fn buffers_are_bound_and_sized() {
    assert_eq!(binding(0), (Buffer::Params, Access::Uniform));
    assert_eq!(binding(2), (Buffer::Grid(Site::Gr), Access::Read));
    assert_eq!(binding(7), (Buffer::Yuyv, Access::ReadWrite));
    assert_eq!(binding(BINDINGS - 1), (Buffer::LumaHistory, Access::ReadWrite));
    assert_eq!(buffer_size(Buffer::Raw, 0, 0), RAW_BYTES as u64);
    assert_eq!(buffer_size(Buffer::Cfa, 0, 0), 1928 * 1088 * 4);
    assert_eq!(buffer_size(Buffer::Rgb, 0, 0), 1928 * 1088 * 12);
    assert_eq!(buffer_size(Buffer::Grid(Site::B), 0, 0), 964 * 544 * 4);
    assert_eq!(buffer_size(Buffer::Lca, 10, 0), 160);
    assert_eq!(buffer_size(Buffer::Acm, 0, 24), 24 * 36);
    assert_eq!(buffer_size(Buffer::ChromaScratch, 0, 0), 960 * 1080 * 4);
    assert_eq!(buffer_size(Buffer::LumaHistory, 0, 0), 1920 * 1080 * 4);
    assert_eq!(buffer_size(Buffer::Staging, 0, 0), YUYV_BYTES as u64);
    assert_eq!(buffer_size(Buffer::Params, 0, 0), 192);
    assert_eq!(out_dims(), (1920, 1080));
}

#[test]
fn passes_follow_the_settings() {
    assert_eq!(groups(Pass::BuildCfa), 32776);
    assert_eq!(groups(Pass::MhcPlanar), 32776);
    assert_eq!(groups(Pass::RenderPack), 16200);
    let mut s = Schedule::new(8, false);
    let off = s.denoise(dn(0, true, false));
    assert_eq!(passes(false, off), vec![Pass::BuildCfa, Pass::RenderPack]);
    let on = s.denoise(dn(1, true, true));
    assert_eq!(
        passes(true, on),
        vec![
            Pass::BuildCfa,
            Pass::MhcPlanar,
            Pass::RenderPackLca,
            Pass::ChromaH,
            Pass::ChromaV,
            Pass::Temporal
        ]
    );
    assert!(on.reset);
    assert!(!s.denoise(dn(1, false, true)).reset);
    assert!(!s.denoise(dn(1, false, false)).reset);
    assert!(s.denoise(dn(1, false, true)).reset);
}

#[test]
fn gpu_frames_are_estimated_on_schedule() {
    let mut s = Schedule::new(0, true);
    assert_eq!(s.interval, 1);
    s.interval = 2;
    assert_eq!(s.begin(5), Err(RawTooSmall { got: 5 }));
    assert_eq!(s.begin(RAW_BYTES), Ok(true));
    assert!(s.estimated(3));
    s.finish();
    assert_eq!(s.begin(RAW_BYTES), Ok(false));
    s.finish();
    assert_eq!(s.begin(RAW_BYTES), Ok(true));
    assert!(!s.estimated(3));
    assert!(s.estimated(4));
    s.frame = u64::MAX;
    s.finish();
    assert_eq!(s.frame, 0);
}

#[test]
fn readback_size_is_checked() {
    assert_eq!(check_readback(YUYV_BYTES), Ok(()));
    let e = check_readback(12).unwrap_err();
    assert_eq!(e.message(), "gpu readback size 12 != expected 4147200");
}

#[test]
fn pictures_are_written_by_extension() {
    assert_eq!(format_of("a.png"), Format::Png);
    assert_eq!(format_of("a/b..png"), Format::Png);
    assert_eq!(format_of(".png"), Format::Undetermined);
    assert_eq!(format_of("shots/.png"), Format::Undetermined);
    assert_eq!(format_of("a.PNG"), Format::Ppm);
    assert_eq!(format_of("png"), Format::Ppm);
    assert_eq!(ppm(12, 3, &[1, 2, 3]), b"P6\n12 3\n255\n\x01\x02\x03".to_vec());
}

#[test]
fn png_files_decode_to_their_pixels() {
    let rgb = [10u8, 20, 30, 40, 50, 60, 70, 80, 90, 100, 110, 120];
    let file = png(2, 2, &rgb).unwrap();
    let back = image::load_from_memory(&file).unwrap().to_rgb8();
    assert_eq!(back.dimensions(), (2, 2));
    assert_eq!(back.as_raw().as_slice(), &rgb);
    // Bytes past the last pixel are left out.
    let mut more = rgb.to_vec();
    more.push(9);
    assert_eq!(png(2, 2, &more).unwrap(), file);
    assert_eq!(png(2, 2, &rgb[..11]), Err(PngError::SizeMismatch));
    assert!(matches!(png(0, 2, &rgb), Err(PngError::Refused(_))));
}

#[test]
fn numbers_are_read_as_written() {
    assert_eq!(parse_unsigned("0", 255), Some(0));
    assert_eq!(parse_unsigned("+255", 255), Some(255));
    assert_eq!(parse_unsigned("256", 255), None);
    assert_eq!(parse_unsigned("007", 255), Some(7));
    assert_eq!(parse_unsigned("", 255), None);
    assert_eq!(parse_unsigned("+", 255), None);
    assert_eq!(parse_unsigned("-1", 255), None);
    assert_eq!(parse_unsigned(" 1", 255), None);
    assert_eq!(parse_unsigned("18446744073709551615", u64::MAX), Some(u64::MAX));
    assert_eq!(parse_unsigned("18446744073709551616", u64::MAX), None);
    assert_eq!(parse_unsigned("99999999999999999999999", u64::MAX), None);
    for s in ["2147483647", "-2147483648", "2147483648", "-2147483649", "-", "+5", "-0", "--1", "1a"] {
        assert_eq!(parse_i32(s), s.parse::<i32>().ok(), "{s}");
    }
    for n in [0u64, 9, 10, 12345, u64::MAX] {
        let mut v = Vec::new();
        push_decimal(&mut v, n);
        let s: String = v.into_iter().collect();
        assert_eq!(s, n.to_string());
        assert_eq!(parse_unsigned(&s, u64::MAX), Some(n));
    }
}

#[test]
fn texts_are_compared_by_character() {
    assert!(same("é", "é"));
    assert!(!same("a", "b"));
    assert!(starts_with("abc", "ab"));
    assert!(!starts_with("a", "ab"));
    assert!(ends_with("abc", "bc"));
    assert!(!ends_with("abc", "b"));
    assert!(trimmed_starts_with("  x", "x"));
    assert!(trimmed_starts_with("", ""));
}

fn list(args: &[&str]) -> Vec<String> {
    args.iter().map(|a| a.to_string()).collect()
}

#[test]
fn still_arguments() {
    let a = parse_still(&list(&["in.bin"])).unwrap();
    assert_eq!((a.mode, a.input.as_str(), a.output.as_str()), (DebayerMode::Mhc, "in.bin", "out.png"));
    let a = parse_still(&list(&["--half", "in.bin", "x.ppm", "more"])).unwrap();
    assert_eq!((a.mode, a.input.as_str(), a.output.as_str()), (DebayerMode::HalfRes, "in.bin", "x.ppm"));
    let a = parse_still(&list(&["--half", "i", "--mhc"])).unwrap();
    assert_eq!(a.mode, DebayerMode::Mhc);
    assert!(parse_still(&list(&["--half"])).is_none());
}

#[test]
fn capture_arguments() {
    let a = parse_capture(&list(&["out"])).ok().unwrap();
    assert_eq!((a.prefix.as_str(), a.frames, a.ae), ("out", 5, false));
    let a = parse_capture(&list(&[
        "--ae", "--exposure", "-7", "out", "--gain", "300", "--vblank", "12", "x", "9", "8",
        "--min-fps", "12.5",
    ]))
    .ok()
    .unwrap();
    assert_eq!((a.frames, a.ae), (9, true));
    assert_eq!((a.exposure, a.gain, a.vblank), (Some(-7), None, Some(12)));
    assert_eq!(a.min_fps.as_deref(), Some("12.5"));
    let a = parse_capture(&list(&["p", "--ae", "--min-fps"])).ok().unwrap();
    assert_eq!((a.frames, a.min_fps), (30, None));
    assert!(matches!(parse_capture(&list(&["p", "-h"])), Err(NoStart::Help)));
    assert!(matches!(parse_capture(&list(&["--ae"])), Err(NoStart::Usage)));
}

#[test]
fn video_defaults_and_options() {
    let a = parse_video(&[]).unwrap_or_else(|e| panic!("{e:?}"));
    assert_eq!(a.device, "/dev/video0");
    assert_eq!((a.backend, a.mode, a.on_demand), (Backend::Auto, DebayerMode::Mhc, OnDemandMode::Auto));
    assert_eq!((a.ae, a.lca, a.measure, a.threads, a.max_gain), (true, true, false, 8, 16));
    assert!(a.device_label.is_none() && a.target.is_empty() && a.min_fps.is_empty());

    let a = parse_video(&list(&[
        "--device", "/dev/video9", "--device-label", "Cam", "--backend", "cpu", "--debayer", "half",
        "--no-ae", "--no-lca", "--denoise", "2", "--no-denoise", "--temporal", "x", "--measure-delay",
        "--on-demand", "off", "--target", "0.2", "--max-gain", "7", "--min-fps", "10", "--threads", "0",
    ]))
    .unwrap_or_else(|e| panic!("{e:?}"));
    assert_eq!(a.device, "/dev/video9");
    assert_eq!(a.device_label.as_deref(), Some("Cam"));
    assert_eq!((a.backend, a.mode, a.on_demand), (Backend::Cpu, DebayerMode::HalfRes, OnDemandMode::Off));
    assert_eq!((a.ae, a.lca, a.measure, a.threads, a.max_gain), (false, false, true, 1, 7));
    assert_eq!((a.target, a.min_fps), (list(&["0.2"]), list(&["10"])));
    assert!(matches!(&a.denoise[..], [Scale::Given(s), Scale::Zero] if s == "2"));
    assert!(matches!(&a.temporal[..], [Scale::Given(s)] if s == "x"));

    let a = parse_video(&list(&["--threads", "many", "--max-gain", "999", "--device"]))
        .unwrap_or_else(|e| panic!("{e:?}"));
    assert_eq!((a.threads, a.max_gain, a.device.as_str()), (8, 16, "/dev/video0"));
}

#[test]
fn video_refusals() {
    let why = |args: &[&str]| match parse_video(&list(args)) {
        Ok(_) => panic!("accepted"),
        Err(e) => e,
    };
    assert_eq!(why(&["--backend", "tpu"]), VideoNoStart::UnknownBackend(Some("tpu".to_string())));
    assert_eq!(why(&["--backend"]), VideoNoStart::UnknownBackend(None));
    assert_eq!(why(&["--debayer", "x"]), VideoNoStart::UnknownDebayer(Some("x".to_string())));
    assert_eq!(why(&["--on-demand"]), VideoNoStart::UnknownOnDemand(None));
    assert_eq!(why(&["--help"]), VideoNoStart::Help);
    assert_eq!(why(&["--no-ae", "stray"]), VideoNoStart::Unexpected("stray".to_string()));
}

#[test]
fn no_buffer_is_bound_twice() {
    for j in 0..BINDINGS {
        for k in 0..j {
            assert_ne!(binding(j).0, binding(k).0);
        }
    }
}

#[test]
fn gpu_output_lies_inside_the_sensor() {
    let (w, h) = out_dims();
    let (x0, y0) = ((1928 - w) / 2, (1088 - h) / 2);
    assert!(x0 >= 2 && y0 >= 2);
    assert!(x0 + w - 1 + 2 < 1928 && y0 + h - 1 + 2 < 1088);
}

#[test]
fn loopback_nodes_are_found_by_label() {
    let node = |n: &str, l: &str| LabelledNode { name: n.to_string(), label: l.to_string() };
    let nodes = [
        node("v4l-subdev0", "Cam\n"),
        node("video3", "Camera\n"),
        node("video7", "Cam\n"),
        node("video8", "Cam"),
    ];
    assert_eq!(find_labelled(&nodes, "Cam"), Some(2));
    assert_eq!(find_labelled(&nodes[3..], "Cam"), Some(0));
    assert_eq!(find_labelled(&nodes, "Cam\n"), Some(2));
    assert_eq!(find_labelled(&nodes, "Other"), None);
}
