//! Raw frame loading and black-level subtraction.
//!
//! Raw geometry: SGRBG10, 1928x1088, stride 1952 u16/line (width padded
//! 1928->1952), 10-bit values in 16-bit little-endian, Bayer GRBG (top-left Gr).
//!
//! Samples stay integers here: black-level subtraction is exact on them. The
//! stages that scale samples by real-valued gains take the sample type as a
//! parameter (see [`RawFrame`]).

use vstd::prelude::*;

use crate::rows::{at, grid};
use crate::text::{chars_of, digits, push_decimal, push_text, string_of};

verus! {

/// Active width in samples.
pub const W: usize = 1928;

/// Active height in lines.
pub const H: usize = 1088;

/// Samples per line in the capture buffer, padding counted.
pub const STRIDE_SAMPLES: usize = 1952;

/// Bytes a capture buffer must hold: `H * STRIDE_SAMPLES` samples of two bytes.
pub const RAW_BYTES: usize = H * STRIDE_SAMPLES * 2;

/// Black level (sensor pedestal).
pub const BLACK: u16 = 64;

/// Largest 10-bit sample.
pub const WHITE: u16 = 1023;

/// Full scale after black-level subtraction.
pub const MAXLIN: u16 = WHITE - BLACK;

/// One frame of samples; `data` is row-major `w*h`. [`RawFrame::from_bytes`]
/// yields integer samples after black-level subtraction, in linear 10-bit scale.
#[derive(Debug, Clone, PartialEq, Eq)]
pub struct RawFrame<T> {
    pub w: usize,
    pub h: usize,
    pub data: Vec<T>,
}

impl<T> RawFrame<T> {
    /// The data fills the stated geometry.
    pub open spec fn wf(&self) -> bool {
        self.data.len() == self.h * self.w
    }

    /// The sample in row `y`, column `x`.
    pub open spec fn sample(&self, y: int, x: int) -> T {
        at(self.data@, self.w as int, y, x)
    }
}

/// A capture buffer that is too short for the sensor geometry.
#[derive(Debug, Clone, Copy, PartialEq, Eq, Structural)]
pub struct RawTooSmall {
    /// Bytes the buffer held.
    pub got: usize,
}

impl RawTooSmall {
    /// What was found and what is needed.
    pub fn message(&self) -> (s: String)
        ensures
            s@ == "raw too small: "@ + digits(self.got as nat) + " bytes, need >= "@ + digits(
                RAW_BYTES as nat,
            ),
    {
        let mut m: Vec<char> = Vec::new();
        push_text(&mut m, "raw too small: ");
        push_decimal(&mut m, self.got as u64);
        push_text(&mut m, " bytes, need >= ");
        push_decimal(&mut m, RAW_BYTES as u64);
        let s: String = string_of(m);
        assert(s@ =~= "raw too small: "@ + digits(self.got as nat) + " bytes, need >= "@ + digits(
            RAW_BYTES as nat,
        ));
        s
    }

    /// As [`RawTooSmall::message`], with the geometry.
    pub fn message_with_geometry(&self) -> (s: String)
        ensures
            s@ == "raw too small: "@ + digits(self.got as nat) + " bytes, need >= "@ + digits(
                RAW_BYTES as nat,
            ) + " ("@ + digits(W as nat) + "x"@ + digits(H as nat) + " stride "@ + digits(
                STRIDE_SAMPLES as nat,
            ) + ")"@,
    {
        let mut m: Vec<char> = chars_of(self.message().as_str());
        push_text(&mut m, " (");
        push_decimal(&mut m, W as u64);
        push_text(&mut m, "x");
        push_decimal(&mut m, H as u64);
        push_text(&mut m, " stride ");
        push_decimal(&mut m, STRIDE_SAMPLES as u64);
        push_text(&mut m, ")");
        string_of(m)
    }
}

/// The `i`-th little-endian 16-bit sample of a capture buffer.
pub open spec fn sample_at(bytes: Seq<u8>, i: int) -> int {
    bytes[2 * i] + 256 * bytes[2 * i + 1]
}

/// A sample with the pedestal removed, clamped to be non-negative.
pub open spec fn black_subtracted(v: int) -> int {
    if v > BLACK {
        v - BLACK
    } else {
        0
    }
}

/// The black-level-corrected sample in row `y`, column `x` of a capture buffer.
pub open spec fn blc_at(bytes: Seq<u8>, y: int, x: int) -> int {
    black_subtracted(sample_at(bytes, y * STRIDE_SAMPLES + x))
}

/// `frame` is what a capture buffer holds after black-level subtraction.
pub open spec fn is_blc_frame(bytes: Seq<u8>, frame: RawFrame<u16>) -> bool {
    &&& frame.w == W
    &&& frame.h == H
    &&& frame.wf()
    &&& forall|y: int, x: int|
        0 <= y < H && 0 <= x < W ==> #[trigger] frame.sample(y, x) == blc_at(bytes, y, x)
}

/// Unpack the sample in row `y`, column `x` and subtract the black level.
pub fn blc_sample(bytes: &[u8], y: usize, x: usize) -> (v: u16)
    requires
        bytes.len() >= RAW_BYTES,
        y < H,
        x < STRIDE_SAMPLES,
    ensures
        v == blc_at(bytes@, y as int, x as int),
{
    let i: usize = (y * STRIDE_SAMPLES + x) * 2;
    let v: u16 = bytes[i] as u16 + 256 * bytes[i + 1] as u16;
    if v > BLACK {
        v - BLACK
    } else {
        0
    }
}

impl RawFrame<u16> {
    /// Build a frame from a raw SGRBG10 byte buffer, applying black level. Fails
    /// exactly when the buffer is too short for the geometry; bytes past the
    /// last line are ignored.
    pub fn from_bytes(bytes: &[u8]) -> (frame: Result<RawFrame<u16>, RawTooSmall>)
        ensures
            match frame {
                Ok(frame) => bytes.len() >= RAW_BYTES && is_blc_frame(bytes@, frame),
                Err(e) => bytes.len() < RAW_BYTES && e.got == bytes.len(),
            },
    {
        if bytes.len() < RAW_BYTES {
            return Err(RawTooSmall { got: bytes.len() });
        }
        let cell = |y: usize, x: usize| -> (v: u16)
            requires
                y < H,
                x < W,
            ensures
                v == blc_at(bytes@, y as int, x as int),
            { blc_sample(bytes, y, x) };
        let frame = RawFrame { w: W, h: H, data: grid(H, W, &cell) };
        assert forall|y: int, x: int| 0 <= y < H && 0 <= x < W implies #[trigger] frame.sample(y, x)
            == blc_at(bytes@, y, x) by {
            assert(call_ensures(cell, (y as usize, x as usize), at(frame.data@, W as int, y, x)));
        }
        Ok(frame)
    }
}

/// Sum of the first `n` corrected samples in row-major order.
pub open spec fn signal_sum(bytes: Seq<u8>, n: int) -> int
    decreases n,
{
    if n <= 0 {
        0
    } else {
        signal_sum(bytes, n - 1) + blc_at(bytes, (n - 1) / (W as int), (n - 1) % (W as int))
    }
}

/// A non-negative fraction.
#[derive(Debug, Clone, Copy, PartialEq, Eq, Structural)]
pub struct Fraction {
    pub num: u64,
    pub den: u64,
}

/// Mean linear signal (black-level subtracted) as a fraction of full scale,
/// metered directly from a raw SGRBG10 byte buffer: the sum of the corrected
/// samples over `W * H * MAXLIN`.
///
/// Used by the live AE loop, which has the mapped capture buffer in hand and
/// does not need to build a [`RawFrame`]. Returns `None` if the buffer is too
/// small for the expected geometry.
pub fn mean_norm_from_bytes(bytes: &[u8]) -> (mean: Option<Fraction>)
    ensures
        match mean {
            Some(m) => bytes.len() >= RAW_BYTES && m.num == signal_sum(bytes@, W * H) && m.den == W
                * H * MAXLIN,
            None => bytes.len() < RAW_BYTES,
        },
{
    if bytes.len() < RAW_BYTES {
        return None;
    }
    let mut sum: u64 = 0;
    let mut y: usize = 0;
    while y < H
        invariant
            y <= H,
            bytes.len() >= RAW_BYTES,
            sum == signal_sum(bytes@, y * W),
            sum <= y * W * 65535,
        decreases H - y,
    {
        let mut x: usize = 0;
        while x < W
            invariant
                y < H,
                x <= W,
                bytes.len() >= RAW_BYTES,
                sum == signal_sum(bytes@, y * W + x),
                sum <= (y * W + x) * 65535,
            decreases W - x,
        {
            let v: u16 = blc_sample(bytes, y, x);
            proof {
                let n = y * W + x;
                assert(n / (W as int) == y && n % (W as int) == x);
                assert(signal_sum(bytes@, n + 1) == signal_sum(bytes@, n) + v);
            }
            sum = sum + v as u64;
            x += 1;
        }
        y += 1;
    }
    Some(Fraction { num: sum, den: (W * H) as u64 * MAXLIN as u64 })
}

/// A frame's samples stand above black: sample `x` of line `y` is what the two bytes at
/// that place of the capture buffer, low byte first, hold above the pedestal of 64, and
/// zero where they hold less. Lines are 1952 samples apart there, and 1928 in the frame.
pub proof fn law_samples_stand_above_black(bytes: Seq<u8>, frame: RawFrame<u16>, y: int, x: int)
    requires
        is_blc_frame(bytes, frame),
        0 <= y < 1088,
        0 <= x < 1928,
    ensures
        ({
            let v = frame.data@[1928 * y + x];
            let i = 2 * (1952 * y + x);
            let held = 256 * bytes[i + 1] + bytes[i];
            if held >= 64 {
                v + 64 == held
            } else {
                v == 0
            }
        }),
{
    assert(frame.sample(y, x) == blc_at(bytes, y, x));
    assert(y * (W as int) == 1928 * y && y * (STRIDE_SAMPLES as int) == 1952 * y);
}

/// What the samples of a list come to.
pub open spec fn total(s: Seq<u16>) -> int
    decreases s.len(),
{
    if s.len() == 0 {
        0
    } else {
        total(s.drop_last()) + s.last()
    }
}

/// Metering a capture buffer sums up what the frame of that buffer holds: 1928 by
/// 1088 samples, each as it is there.
pub proof fn law_meter_sums_the_frame(bytes: Seq<u8>, frame: RawFrame<u16>)
    requires
        is_blc_frame(bytes, frame),
    ensures
        signal_sum(bytes, 2_097_664) == total(frame.data@),
{
    lemma_partial_sum(bytes, frame, 2_097_664);
    assert(frame.data@.take(2_097_664) =~= frame.data@);
}

/// The sum of the first samples is that of the frame's first samples.
proof fn lemma_partial_sum(bytes: Seq<u8>, frame: RawFrame<u16>, n: int)
    requires
        is_blc_frame(bytes, frame),
        0 <= n <= 2_097_664,
    ensures
        signal_sum(bytes, n) == total(frame.data@.take(n)),
    decreases n,
{
    if n > 0 {
        lemma_partial_sum(bytes, frame, n - 1);
        let (y, x) = ((n - 1) / 1928, (n - 1) % 1928);
        assert(frame.sample(y, x) == blc_at(bytes, y, x));
        assert(frame.data@.take(n).drop_last() =~= frame.data@.take(n - 1));
    }
}

/// A brighter sample meters brighter: of two buffers that differ in nothing but one
/// sample of the picture, above black in both, the sums differ by what the samples do.
pub proof fn law_meter_follows_a_sample(
    a: Seq<u8>,
    b: Seq<u8>,
    fa: RawFrame<u16>,
    fb: RawFrame<u16>,
    i: int,
)
    requires
        is_blc_frame(a, fa),
        is_blc_frame(b, fb),
        0 <= i < 2_097_664,
        forall|j: int|
            0 <= j < 2_097_664 && j != i ==> #[trigger] fa.data@[j] == #[trigger] fb.data@[j],
    ensures
        signal_sum(b, 2_097_664) - signal_sum(a, 2_097_664) == fb.data@[i] - fa.data@[i],
{
    law_meter_sums_the_frame(a, fa);
    law_meter_sums_the_frame(b, fb);
    lemma_total_differs(fa.data@, fb.data@, i);
}

/// Two lists that differ in one place.
proof fn lemma_total_differs(s: Seq<u16>, t: Seq<u16>, i: int)
    requires
        s.len() == t.len(),
        0 <= i < s.len(),
        forall|j: int| 0 <= j < s.len() && j != i ==> #[trigger] s[j] == #[trigger] t[j],
    ensures
        total(t) - total(s) == t[i] - s[i],
    decreases s.len(),
{
    if i == s.len() - 1 {
        assert(s.drop_last() =~= t.drop_last());
    } else {
        assert(s.last() == s[s.len() - 1] && t.last() == t[t.len() - 1]);
        lemma_total_differs(s.drop_last(), t.drop_last(), i);
    }
}

/// What is metered is the mean of the frame: over full scale, 959 above black, what its 1928
/// by 1088 samples come to. A buffer is metered exactly when a frame can be made of it, which
/// takes two bytes a sample of 1088 lines of 1952.
pub proof fn law_meter_is_the_mean_of_the_frame(
    bytes: &[u8],
    mean: Option<Fraction>,
    frame: Result<RawFrame<u16>, RawTooSmall>,
)
    requires
        call_ensures(mean_norm_from_bytes, (bytes,), mean),
        call_ensures(RawFrame::<u16>::from_bytes, (bytes,), frame),
    ensures
        match (mean, frame) {
            (Some(m), Ok(f)) => {
                &&& bytes@.len() >= 4_247_552
                &&& f.data@.len() == 2_097_664
                &&& m.num == total(f.data@)
                &&& m.den == 959 * f.data@.len()
            },
            (None, Err(e)) => bytes@.len() < 4_247_552 && e.got == bytes@.len(),
            _ => false,
        },
{
    if let Ok(f) = frame {
        law_meter_sums_the_frame(bytes@, f);
    }
}

} // verus!
