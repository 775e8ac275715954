//! ISP processing core.

pub mod awb;
pub mod bayer;
pub mod channels;
pub mod colour;
pub mod determined;
pub mod kernels;
pub mod lca;
pub mod mhc;
pub mod processor;
pub mod render;
pub mod scene;
pub mod shading;

pub use bayer::{bayer_planes, Planes};
pub use colour::{interp_acm, interp_ccm};
pub use kernels::Kernels;
pub use lca::Lca;
pub use mhc::mhc_debayer;
pub use processor::{process, process_with, render, render_mhc, DebayerMode, Processor};
pub use scene::{estimate, AcmFrame, Calibration, Estimate, Scene};
pub use shading::{build_grids, Grids};
