//! Output to a v4l2loopback device: packed YUYV frames, their denoising, and what
//! is agreed with the device.

pub mod denoise;
pub mod loopback;
pub mod yuyv;

pub use denoise::{denoise_chroma_yuyv, temporal_denoise_luma_yuyv};
pub use yuyv::rgb_to_yuyv_crop;
