//! The live webcam: one engine, the frame loop and its supervision, and the
//! measurement of the sensor's apply delay.

pub mod dump;
pub mod engine;
pub mod live;
pub mod measure;
pub mod supervise;
