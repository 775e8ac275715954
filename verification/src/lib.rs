//! Software ISP for the GalaxyCore GC2607 colour camera.

pub mod ae;
pub mod camera;
pub mod cli;
pub mod gpu;
pub mod order;
pub mod output;
pub mod picture;
pub mod pipeline;
pub mod raw;
pub mod recovery;
pub mod rows;
pub mod sensor;
pub mod text;
pub mod tuning;
pub mod video;
