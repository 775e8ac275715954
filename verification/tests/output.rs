//! Packed YUYV: conversion, denoising and what is agreed with the loopback.

use gc2607_isp::output::denoise::box_blur_plane;
use gc2607_isp::output::loopback::{
    check_frame, consumer_active, event_pending, frame_size, yuyv_format, V4L2_EVENT_PRI_CLIENT_USAGE,
};
use gc2607_isp::output::yuyv::{luma_samples, rgb_to_ycbcr, standby_frame};
use gc2607_isp::output::{denoise_chroma_yuyv, rgb_to_yuyv_crop, temporal_denoise_luma_yuyv};

fn chroma(strength: f64) -> impl Fn(u16, u16) -> u8 {
    let s = strength.clamp(0.0, 1.0);
    move |cur: u16, blurred: u16| {
        (cur as f64 * (1.0 - s) + blurred as f64 * s).round().clamp(0.0, 255.0) as u8
    }
}

fn denoise_chroma(buf: &mut [u8], w: usize, h: usize, radius: usize, strength: f64) {
    denoise_chroma_yuyv(buf, w, h, radius, strength > 0.0, &chroma(strength));
}

fn temporal(buf: &mut [u8], prev: &mut Vec<u8>, w: usize, h: usize, alpha: f64, motion: f64) {
    let a = alpha.clamp(0.0, 1.0);
    let mthr = motion.max(1.0);
    let blend = |cur: u8, prev: u8| {
        let (cur, prev) = (cur as f64, prev as f64);
        let gate = (1.0 - (cur - prev).abs() / mthr).clamp(0.0, 1.0);
        let eff = a * gate;
        (cur * (1.0 - eff) + prev * eff).round().clamp(0.0, 255.0) as u8
    };
    temporal_denoise_luma_yuyv(buf, prev, w, h, a > 0.0, &blend);
}

/// A YUYV frame with a per-pixel luma ramp and a checkerboard chroma. After
/// chroma denoise the luma must be byte-identical and the chroma must move
/// toward its local mean (128), without touching the frame's byte length.
#[test]
fn chroma_denoise_smooths_chroma_keeps_luma() {
    let (w, h) = (8usize, 4usize);
    let mut buf = vec![0u8; w * h * 2];
    for y in 0..h {
        let row = y * w * 2;
        for c in 0..w / 2 {
            buf[row + 4 * c] = (10 * c) as u8; // Y0
            buf[row + 4 * c + 2] = (10 * c + 5) as u8; // Y1
            // Checkerboard chroma around the 128 neutral: 100 / 156.
            let v = if (c + y) % 2 == 0 { 100u8 } else { 156u8 };
            buf[row + 4 * c + 1] = v; // Cb
            buf[row + 4 * c + 3] = 255 - v; // Cr (also 155 / 99)
        }
    }
    let luma_before: Vec<u8> = (0..w * h).map(|p| buf[p * 2]).collect();

    denoise_chroma(&mut buf, w, h, 1, 1.0);

    // Luma (every even byte) untouched.
    let luma_after: Vec<u8> = (0..w * h).map(|p| buf[p * 2]).collect();
    assert_eq!(luma_before, luma_after, "luma must be preserved");

    // An interior chroma sample must be pulled toward the 128 neutral.
    let c = 2usize; // interior column
    let yq = 1usize; // interior row
    let cb = buf[yq * w * 2 + 4 * c + 1];
    assert!(
        (100..=156).contains(&cb) && (cb as i32 - 128).abs() < (100i32 - 128).abs(),
        "chroma {cb} should move toward 128 from the 100/156 extremes"
    );
}

/// Radius 0 (or zero strength) is a no-op.
#[test]
fn chroma_denoise_zero_radius_is_noop() {
    let (w, h) = (4usize, 2usize);
    let mut buf: Vec<u8> = (0..(w * h * 2) as u8).collect();
    let orig = buf.clone();
    denoise_chroma(&mut buf, w, h, 0, 1.0);
    assert_eq!(buf, orig);
    denoise_chroma(&mut buf, w, h, 2, 0.0);
    assert_eq!(buf, orig);
}

/// Build a single-row YUYV frame with the given per-pixel luma; chroma is set
/// to a constant marker so the test can confirm it is never touched.
fn yuyv_row(luma: &[u8]) -> Vec<u8> {
    let mut buf = vec![0u8; luma.len() * 2];
    for (p, &y) in luma.iter().enumerate() {
        buf[2 * p] = y;
        buf[2 * p + 1] = 64; // Cb/Cr marker (also covers Cr at odd pairs)
    }
    buf
}

/// The first call seeds history without blending; a later static frame is
/// pulled toward the history; chroma is preserved throughout.
#[test]
fn temporal_denoise_blends_luma_keeps_chroma() {
    let (w, h) = (2usize, 1usize);
    let mut prev = Vec::new();

    // Seed: history := [200, 200], frame unchanged.
    let mut buf = yuyv_row(&[200, 200]);
    temporal(&mut buf, &mut prev, w, h, 0.5, 1000.0);
    assert_eq!(prev, vec![200, 200]);
    assert_eq!(buf, yuyv_row(&[200, 200]));

    // New frame luma 100; alpha 0.5, large motion threshold -> gate ~1.
    // diff=100, gate=1-100/1000=0.9, eff=0.45 -> 100*0.55 + 200*0.45 = 145.
    let mut buf = yuyv_row(&[100, 100]);
    temporal(&mut buf, &mut prev, w, h, 0.5, 1000.0);
    assert_eq!(buf[0], 145);
    assert_eq!(buf[2], 145);
    assert_eq!(prev, vec![145, 145]);
    // Chroma markers intact.
    assert_eq!(buf[1], 64);
    assert_eq!(buf[3], 64);
}

/// Motion beyond the threshold disables the blend (gate -> 0), so a fast
/// change passes through as the live pixel.
#[test]
fn temporal_denoise_motion_gate_passes_live_pixel() {
    let (w, h) = (1usize, 1usize);
    let mut prev = Vec::new();
    let mut buf = yuyv_row(&[10]);
    temporal(&mut buf, &mut prev, w, h, 0.8, 8.0); // seed -> 10
    let mut buf = yuyv_row(&[200]); // diff 190 >> motion 8 -> gate 0
    temporal(&mut buf, &mut prev, w, h, 0.8, 8.0);
    assert_eq!(buf[0], 200);
    assert_eq!(prev, vec![200]);
}

/// alpha 0 keeps history current but leaves luma unchanged.
#[test]
fn temporal_denoise_alpha_zero_refreshes_history_only() {
    let (w, h) = (2usize, 1usize);
    let mut prev = Vec::new();
    let mut buf = yuyv_row(&[50, 60]);
    temporal(&mut buf, &mut prev, w, h, 0.0, 8.0); // seed
    let mut buf = yuyv_row(&[80, 90]);
    temporal(&mut buf, &mut prev, w, h, 0.0, 8.0);
    assert_eq!(buf, yuyv_row(&[80, 90])); // luma untouched
    assert_eq!(prev, vec![80, 90]); // history advanced
}

#[test]
fn history_of_another_size_is_started_afresh() {
    let mut prev = vec![7, 7, 7];
    let mut buf = yuyv_row(&[50, 60]);
    temporal(&mut buf, &mut prev, 2, 1, 1.0, 1000.0);
    assert_eq!(buf, yuyv_row(&[50, 60]));
    assert_eq!(prev, vec![50, 60]);
}

#[test]
fn box_blur_averages_each_pass_and_cuts_at_borders() {
    // One row: each pass of half-width 1 averages what is there.
    assert_eq!(box_blur_plane(&[0, 30, 90], 3, 1, 1), vec![15, 40, 60]);
    // One column: the same, downwards.
    assert_eq!(box_blur_plane(&[0, 30, 90], 1, 3, 1), vec![15, 40, 60]);
    // Radius zero keeps the plane; a flat plane is kept by any radius.
    assert_eq!(box_blur_plane(&[1, 2, 3, 4], 2, 2, 0), vec![1, 2, 3, 4]);
    assert_eq!(box_blur_plane(&[77; 12], 4, 3, 5), vec![77; 12]);
    // Rows are rounded down before columns are averaged: (0+1)/2 = 0, (3+4)/2 = 3.
    assert_eq!(box_blur_plane(&[0, 1, 3, 4], 2, 2, 9), vec![1, 1, 1, 1]);
    assert_eq!(box_blur_plane(&[], 0, 0, 3), Vec::<u16>::new());
}

/// The same formulas in single precision.
fn ycbcr_f32(r: u8, g: u8, b: u8) -> (u8, u8, u8) {
    let (rf, gf, bf) = (r as f32, g as f32, b as f32);
    let y = 0.299 * rf + 0.587 * gf + 0.114 * bf;
    let cb = 128.0f32 - 0.168_736 * rf - 0.331_264 * gf + 0.5 * bf;
    let cr = 128.0f32 + 0.5 * rf - 0.418_688 * gf - 0.081_312 * bf;
    (
        y.round().clamp(0.0, 255.0) as u8,
        cb.round().clamp(0.0, 255.0) as u8,
        cr.round().clamp(0.0, 255.0) as u8,
    )
}

#[test]
fn conversion_matches_single_precision() {
    let mut g = 0;
    for r in 0..=255u8 {
        for b in (0..=255u8).step_by(3) {
            for _ in 0..24 {
                g = (g + 11) % 256;
                let c = rgb_to_ycbcr(r, g as u8, b);
                assert_eq!((c.y, c.cb, c.cr), ycbcr_f32(r, g as u8, b), "{r} {g} {b}");
            }
        }
    }
}

#[test]
fn conversion_matches_on_exact_ties() {
    // Every triple whose exact luma lies halfway between two levels, along one axis.
    let mut seen = 0;
    for r in 0..=255u8 {
        for g in 0..=255u8 {
            for b in 0..=255u8 {
                if (299 * r as u32 + 587 * g as u32 + 114 * b as u32) % 1000 == 500 {
                    let c = rgb_to_ycbcr(r, g, b);
                    assert_eq!((c.y, c.cb, c.cr), ycbcr_f32(r, g, b), "{r} {g} {b}");
                    seen += 1;
                }
            }
        }
    }
    assert!(seen > 10_000);
}

#[test]
fn greys_are_neutral() {
    for v in 0..=255u8 {
        let c = rgb_to_ycbcr(v, v, v);
        assert_eq!((c.y, c.cb, c.cr), (v, 128, 128));
    }
}

#[test]
fn primaries_convert_to_their_levels() {
    let c = rgb_to_ycbcr(255, 0, 0);
    assert_eq!((c.y, c.cb, c.cr), (76, 85, 255));
    let c = rgb_to_ycbcr(0, 255, 0);
    assert_eq!((c.y, c.cb, c.cr), (150, 44, 21));
    let c = rgb_to_ycbcr(0, 0, 255);
    assert_eq!((c.y, c.cb, c.cr), (29, 255, 107));
}

#[test]
fn crop_takes_the_centre_and_pairs_pixels() {
    // A 6x4 image whose pixel value is its place; the centre 2x2 is cropped.
    let (w, h) = (6usize, 4usize);
    let mut rgb = vec![0u8; w * h * 3];
    for p in 0..w * h {
        rgb[3 * p] = (9 * p) as u8;
        rgb[3 * p + 1] = (7 * p) as u8;
        rgb[3 * p + 2] = (5 * p) as u8;
    }
    let mut dst = vec![0u8; 2 * 2 * 2];
    rgb_to_yuyv_crop(&rgb, w, h, &mut dst, 2, 2);
    let at = |y: usize, x: usize| {
        let i = 3 * (y * w + x);
        ycbcr_f32(rgb[i], rgb[i + 1], rgb[i + 2])
    };
    for y in 0..2 {
        let (a, b) = (at(1 + y, 2), at(1 + y, 3));
        let cb = ((a.1 as u16 + b.1 as u16) / 2) as u8;
        let cr = ((a.2 as u16 + b.2 as u16) / 2) as u8;
        assert_eq!(&dst[4 * y..4 * y + 4], &[a.0, cb, b.0, cr]);
    }
}

#[test]
fn standby_frame_is_black() {
    assert_eq!(standby_frame(6), vec![0, 128, 0, 128, 0, 128]);
    assert_eq!(standby_frame(0), Vec::<u8>::new());
    assert_eq!(standby_frame(3), vec![0, 128, 0]);
}

#[test]
fn metering_takes_every_fourth_luma() {
    let yuyv: Vec<u8> = (0..20).collect();
    assert_eq!(luma_samples(&yuyv), vec![0, 8, 16]);
    assert_eq!(luma_samples(&yuyv[..16]), vec![0, 8]);
    assert_eq!(luma_samples(&[]), Vec::<u8>::new());
}

#[test]
fn loopback_format_describes_the_frame() {
    let f = yuyv_format(1920, 1080);
    assert_eq!((f.width, f.height), (1920, 1080));
    assert_eq!(f.pixelformat.to_le_bytes(), *b"YUYV");
    assert_eq!((f.field, f.bytesperline, f.sizeimage), (1, 3840, 4_147_200));
    assert_eq!((f.colorspace, f.quantization), (8, 1));
    assert_eq!((f.private, f.flags, f.enc, f.xfer_func), (0, 0, 0, 0));
    assert_eq!(V4L2_EVENT_PRI_CLIENT_USAGE, 0x10E0_0001);
    assert_eq!(frame_size(1920, 1080), 4_147_200);
}

#[test]
fn frames_of_the_wrong_size_are_refused() {
    assert_eq!(check_frame(16, 4, 2), Ok(()));
    let e = check_frame(15, 4, 2).unwrap_err();
    assert_eq!((e.got, e.width, e.height), (15, 4, 2));
    assert_eq!(e.message(), "frame is 15 bytes, expected 16 (4x2 YUYV)");
}

#[test]
fn client_usage_is_any_non_zero_count() {
    assert!(!consumer_active(&[0, 0, 0, 0, 9]));
    assert!(consumer_active(&[1, 0, 0, 0]));
    assert!(consumer_active(&[0, 0, 0, 1]));
    assert!(event_pending(1, Some(true)));
    assert!(!event_pending(0, Some(true)));
    assert!(!event_pending(1, Some(false)));
    assert!(!event_pending(1, None));
}

#[test]
fn conversion_stays_within_half_a_level() {
    for r in (0..=255u8).step_by(5) {
        for g in (0..=255u8).step_by(5) {
            for b in (0..=255u8).step_by(5) {
                let c = rgb_to_ycbcr(r, g, b);
                let (ri, gi, bi) = (r as i64, g as i64, b as i64);
                assert!((1000 * c.y as i64 - (299 * ri + 587 * gi + 114 * bi)).abs() <= 500);
                let cb = 128_000_000 - 168_736 * ri - 331_264 * gi + 500_000 * bi;
                assert!((1_000_000 * c.cb as i64 - cb).abs() <= 500_300);
                let cr = 128_000_000 + 500_000 * ri - 418_688 * gi - 81_312 * bi;
                assert!((1_000_000 * c.cr as i64 - cr).abs() <= 500_300);
            }
        }
    }
}

#[test]
fn blur_stays_between_the_extremes() {
    let src: Vec<u16> = (0..35).map(|i| 20 + (i * 17) % 90).collect();
    let (least, most) = (*src.iter().min().unwrap(), *src.iter().max().unwrap());
    for r in 0..6 {
        for v in box_blur_plane(&src, 7, 5, r) {
            assert!(least <= v && v <= most);
        }
    }
}

#[test]
fn blended_luma_lies_between_live_and_history() {
    let (w, h) = (16usize, 16usize);
    let live: Vec<u8> = (0..2 * w * h).map(|i| (i * 37 % 256) as u8).collect();
    let past: Vec<u8> = (0..w * h).map(|i| (i * 74 % 256) as u8 ^ 7).collect();
    let (mut buf, mut prev) = (live.clone(), past.clone());
    temporal(&mut buf, &mut prev, w, h, 0.7, 12.0);
    for i in 0..w * h {
        let (a, b) = (live[2 * i].min(past[i]), live[2 * i].max(past[i]));
        assert!(a <= buf[2 * i] && buf[2 * i] <= b);
        if b - a >= 12 {
            assert_eq!(buf[2 * i], live[2 * i]);
        }
        assert_eq!(buf[2 * i + 1], live[2 * i + 1]);
        assert_eq!(prev[i], buf[2 * i]);
    }
}

#[test]
fn blur_stays_within_its_window() {
    let (w, h) = (9usize, 7usize);
    let src: Vec<u16> = (0..w * h).map(|i| (i * 91 % 256) as u16).collect();
    let out = box_blur_plane(&src, w, h, 1);
    for y in 0..h {
        for x in 0..w {
            let window: Vec<u16> = (y.saturating_sub(1)..=(y + 1).min(h - 1))
                .flat_map(|i| (x.saturating_sub(1)..=(x + 1).min(w - 1)).map(move |j| (i, j)))
                .map(|(i, j)| src[i * w + j])
                .collect();
            let v = out[y * w + x];
            assert!(window.iter().min().unwrap() <= &v && &v <= window.iter().max().unwrap());
        }
    }
}

#[test]
fn crops_need_no_more_than_they_reach() {
    // A 2x1 crop of a 4x3 image: the middle pair of the middle row.
    let whole: Vec<u8> = (0..36u8).map(|v| 7 * v).collect();
    let mut want = vec![0u8; 4];
    rgb_to_yuyv_crop(&whole, 4, 3, &mut want, 2, 1);
    let longer: Vec<u8> = whole.iter().copied().chain([1, 2, 3]).collect();
    for rgb in [&longer[..], &whole[..21]] {
        let mut got = vec![0u8; 4];
        rgb_to_yuyv_crop(rgb, 4, 3, &mut got, 2, 1);
        assert_eq!(got, want);
    }
}
