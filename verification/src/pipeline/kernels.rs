//! The real-valued arithmetic of rendering.

use vstd::prelude::*;

use crate::pipeline::mhc::Debayer;
use crate::pipeline::render::{Rgb8, Spot, Tile};
use crate::pipeline::scene::Scene;
use crate::pipeline::shading::Quad;
use crate::raw::Fraction;

verus! {

/// Where a colour lies on the hue circle, and how saturated it is.
#[derive(Debug, Clone, Copy, PartialEq, Eq)]
pub struct Hue<Q> {
    /// The sector centre at or before the hue, counted from the first centre; it
    /// may lie before the first or past the last one.
    pub sector: i64,
    /// How far the hue lies towards the next centre.
    pub frac: Q,
    /// How much the sector's matrix counts against the global one.
    pub weight: Q,
}

/// A band of hues whose chroma is scaled down after the matrices.
#[derive(Debug, Clone, Copy, PartialEq, Eq, Structural)]
pub enum Band {
    Skin,
    Yellow,
}

/// The arithmetic of the whole pipeline on real numbers: scene estimation
/// ([`Scene`]), debayering ([`Debayer`]), shading, aberration shifts and colour.
/// The pipeline decides what each step is applied to, and takes whatever it
/// yields.
pub trait Kernels: Scene<u16> + Debayer<<Self as Scene<u16>>::S, <Self as Scene<u16>>::S> {
    /// A shading gain.
    type G: Copy + Send + Sync;

    /// A linear pixel.
    type P: Copy + Send + Sync;

    /// The weights of a position between four values.
    type W: Copy + Send + Sync;

    /// The weight of a blend of two.
    type Q: Copy + Send + Sync;

    /// The gain between four calibrated ones, given as single-precision bit
    /// patterns, by how far down and across it lies.
    fn bilinear(&self, q: Quad<u32>, fy: Fraction, fx: Fraction) -> Self::G;

    /// A sample with its shading gain and white-balance gain applied.
    fn shade(&self, v: u16, g: Self::G, d: <Self as Scene<u16>>::D) -> <Self as Scene<u16>>::S;

    /// The linear pixel of a tile: its samples with their shading gains, its greens
    /// averaged, and the white-balance gains applied.
    fn tile(
        &self,
        gains: &[<Self as Scene<u16>>::D; 3],
        t: Tile<u16>,
        g: Tile<Self::G>,
    ) -> Self::P;

    /// The linear pixel of debayered red, green and blue.
    fn linear(
        &self,
        r: <Self as Scene<u16>>::S,
        g: <Self as Scene<u16>>::S,
        b: <Self as Scene<u16>>::S,
    ) -> Self::P;

    /// A linear pixel with blown highlights blended towards white.
    fn highlight(&self, p: Self::P) -> Self::P;

    /// A colour matrix applied to a pixel.
    fn matrix(&self, m: &[<Self as Scene<u16>>::D; 9], p: Self::P) -> Self::P;

    /// The hue of a pixel; `None` when it is achromatic.
    fn hue(&self, p: Self::P) -> Option<Hue<Self::Q>>;

    /// Two matrix entries blended.
    fn mix(
        &self,
        q: Self::Q,
        a: <Self as Scene<u16>>::D,
        b: <Self as Scene<u16>>::D,
    ) -> <Self as Scene<u16>>::D;

    /// A pixel with its chroma scaled down when its hue lies in a band.
    fn desaturate(&self, band: Band, p: Self::P) -> Self::P;

    /// The bytes of a pixel, by the exact transfer function.
    fn encode(&self, p: Self::P) -> Rgb8;

    /// The bytes of a pixel, by the tabulated transfer function.
    fn encode_fast(&self, p: Self::P) -> Rgb8;

    /// Where a pixel lies on the aberration grids.
    fn cell(&self, y: usize, x: usize) -> Spot<Self::W>;

    /// The shift between four calibrated ones, given as single-precision bit
    /// patterns.
    fn offset(&self, q: Quad<u32>, w: Self::W) -> <Self as Scene<u16>>::S;

    /// Where a pixel lies after a shift across and down.
    fn displace(
        &self,
        y: usize,
        x: usize,
        dx: <Self as Scene<u16>>::S,
        dy: <Self as Scene<u16>>::S,
    ) -> Spot<Self::W>;

    /// The value between four samples.
    fn resample(&self, q: Quad<<Self as Scene<u16>>::S>, w: Self::W) -> <Self as Scene<u16>>::S;
}

} // verus!
