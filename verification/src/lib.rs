//! Adaptive display-brightness engine.
//!
//! The library learns, per output, the user's preferred backlight brightness
//! for each combination of ambient light (lux) and on-screen lightness (luma),
//! and predicts a brightness once enough preferences are known.

pub mod als;
pub mod channels;
pub mod config;
pub mod frame;
pub mod predictor;
