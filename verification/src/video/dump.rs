//! The raw-capture program: how many frames, what they are called, and exposure
//! while they are taken.
//!
//! Exposure follows the produced image as in the live loop, so an offline capture
//! settles at the brightness a live call does; unlike there, a change that the
//! sensor refused is not taken over.

use vstd::prelude::*;

use crate::ae::{is_step as is_ae_step, step as ae_step, AeConfig, AeState, Demand, RATIO_MAX};
use crate::pipeline::render::Rgb8;
use crate::text::{
    chars_of, decimal, digits, is_decimal, is_digit, law_digits_read_back, push_decimal, push_text,
    same, string_of,
};
use crate::video::live::AE_SETTLE;

verus! {

/// Are frames written at all? The prefix `-` disables it.
pub fn saves(prefix: &str) -> (r: bool)
    ensures
        r == (prefix@ != "-"@),
{
    !same(prefix, "-")
}

/// A frame number with at least three digits.
pub open spec fn padded(n: nat) -> Seq<char> {
    (if n < 10 {
        "00"@
    } else if n < 100 {
        "0"@
    } else {
        Seq::empty()
    }) + digits(n)
}

/// The file name of a frame.
pub fn frame_name(prefix: &str, n: usize) -> (s: String)
    ensures
        s@ == prefix@ + "-"@ + padded(n as nat) + ".bin"@,
{
    let mut m: Vec<char> = chars_of(prefix);
    push_text(&mut m, "-");
    if n < 10 {
        push_text(&mut m, "00");
    } else if n < 100 {
        push_text(&mut m, "0");
    }
    push_decimal(&mut m, n as u64);
    push_text(&mut m, ".bin");
    let s: String = string_of(m);
    assert(s@ =~= prefix@ + "-"@ + padded(n as nat) + ".bin"@);
    s
}

/// The pixels that auto-exposure meters: every fourth, from the first on; a
/// trailing incomplete one does not count.
pub fn pixel_samples(rgb: &[u8]) -> (px: Vec<Rgb8>)
    ensures
        px.len() == (rgb.len() + 9) / 12,
        forall|k: int|
            0 <= k < px.len() ==> #[trigger] px@[k] == (Rgb8 {
                r: rgb@[12 * k],
                g: rgb@[12 * k + 1],
                b: rgb@[12 * k + 2],
            }),
{
    let mut px: Vec<Rgb8> = Vec::new();
    let n: usize = rgb.len();
    let mut i: usize = 0;
    while n - i >= 3
        invariant
            n == rgb.len(),
            i <= n,
            (i % 12 == 0 && px.len() == i / 12) || (i == n && px.len() == (n + 9) / 12),
            forall|k: int|
                0 <= k < px.len() ==> 12 * k + 2 < n && #[trigger] px@[k] == (Rgb8 {
                    r: rgb@[12 * k],
                    g: rgb@[12 * k + 1],
                    b: rgb@[12 * k + 2],
                }),
        decreases n - i,
    {
        px.push(Rgb8 { r: rgb[i], g: rgb[i + 1], b: rgb[i + 2] });
        if n - i > 12 {
            i += 12;
        } else {
            i = n;
        }
    }
    px
}

/// A capture in progress.
#[derive(Debug, Clone, Copy, PartialEq, Eq, Structural)]
pub struct Dump {
    pub cfg: AeConfig,
    /// Drive exposure; needs the sensor.
    pub ae: bool,
    /// The sensor can be written.
    pub sensor: bool,
    pub state: AeState,
    /// Frames left to hold metering.
    pub ae_hold: u32,
    /// Frames taken.
    pub done: usize,
    /// Frames asked for.
    pub frames: usize,
}

impl Dump {
    /// A capture about to start.
    pub fn new(cfg: AeConfig, ae: bool, sensor: bool, state: AeState, frames: usize) -> (d: Self)
        ensures
            d == (Dump { cfg, ae, sensor, state, ae_hold: 0, done: 0, frames }),
    {
        Dump { cfg, ae, sensor, state, ae_hold: 0, done: 0, frames }
    }

    /// Is another frame wanted?
    pub fn wants_more(&self) -> (r: bool)
        ensures
            r == (self.done < self.frames),
    {
        self.done < self.frames
    }

    /// Take in what a metered frame asks of exposure (nothing inside the
    /// deadband); the answer is the state to write to the sensor, if any. While
    /// the previous change settles, the hold is counted down instead.
    pub fn metered(&mut self, demand: Option<Demand>) -> (apply: Option<AeState>)
        requires
            old(self).cfg.wf(),
            demand is Some ==> demand->0.product <= RATIO_MAX,
        ensures
            if !old(self).ae || !old(self).sensor {
                apply is None && *final(self) == *old(self)
            } else if old(self).ae_hold > 0 {
                apply is None && *final(self) == (Dump {
                    ae_hold: (old(self).ae_hold - 1) as u32,
                    ..*old(self)
                })
            } else {
                &&& *final(self) == *old(self)
                &&& match apply {
                    Some(next) => next != old(self).state && is_ae_step(
                        old(self).cfg,
                        old(self).state,
                        demand,
                        next,
                    ),
                    None => is_ae_step(old(self).cfg, old(self).state, demand, old(self).state),
                }
            },
    {
        if !self.ae || !self.sensor {
            return None;
        }
        if self.ae_hold > 0 {
            self.ae_hold = self.ae_hold - 1;
            return None;
        }
        let next: AeState = ae_step(&self.cfg, self.state, demand);
        if next != self.state {
            Some(next)
        } else {
            None
        }
    }

    /// Take in whether the sensor took a state: only then is it taken over, and
    /// metering held.
    pub fn applied(&mut self, next: AeState, ok: bool)
        ensures
            *final(self) == (if ok {
                Dump { state: next, ae_hold: AE_SETTLE, ..*old(self) }
            } else {
                *old(self)
            }),
    {
        if ok {
            self.state = next;
            self.ae_hold = AE_SETTLE;
        }
    }

    /// Count a frame.
    pub fn finish_frame(&mut self)
        requires
            old(self).done < old(self).frames,
        ensures
            *final(self) == (Dump { done: (old(self).done + 1) as usize, ..*old(self) }),
    {
        self.done = self.done + 1;
    }
}

/// A frame's number has three digits or more and reads back: leading zeros fill it up.
pub proof fn law_frame_numbers_have_three_digits(n: nat)
    ensures
        padded(n).len() >= 3,
        n < 1000 ==> padded(n).len() == 3,
        is_decimal(padded(n)),
        decimal(padded(n)) == n,
{
    reveal_strlit("00");
    reveal_strlit("0");
    law_digits_read_back(n);
    let s = padded(n);
    let d = digits(n);
    if n < 10 {
        assert(s =~= seq!['0', '0'] + d);
        assert(d.len() == 1);
        assert(s.drop_last() =~= seq!['0', '0']);
        assert(seq!['0', '0'].drop_last() =~= seq!['0']);
        assert(seq!['0'].drop_last() =~= Seq::<char>::empty());
        assert(d.drop_last() =~= Seq::<char>::empty());
        reveal_with_fuel(decimal, 4);
    } else if n < 100 {
        assert(digits(n / 10).len() == 1);
        assert(s =~= seq!['0'] + d);
        assert(d.len() == 2);
        assert(s.drop_last() =~= seq!['0', d[0]]);
        assert(seq!['0', d[0]].drop_last() =~= seq!['0']);
        assert(seq!['0'].drop_last() =~= Seq::<char>::empty());
        assert(d.drop_last() =~= seq![d[0]]);
        assert(seq![d[0]].drop_last() =~= Seq::<char>::empty());
        reveal_with_fuel(decimal, 4);
    } else {
        assert(s =~= d);
        law_digits_read_back(n / 10);
        law_digits_read_back(n / 10 / 10);
        assert(d.len() == digits(n / 10).len() + 1);
        assert(digits(n / 10).len() == digits(n / 10 / 10).len() + 1);
        if n < 1000 {
            assert(digits(n / 10 / 10).len() == 1);
        }
    }
    assert forall|i: int| 0 <= i < s.len() implies is_digit(#[trigger] s[i]) by {
        let lead = s.len() - d.len();
        if i >= lead {
            assert(s[i] == d[i - lead]);
        }
    }
}

} // verus!
