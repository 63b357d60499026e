//! The per-output learning predictor: its data set, its Kalman smoother and
//! the controller that ties them to the ambient-light and user channels.

pub mod controller;
pub mod data;
pub mod interpolate;
pub mod kalman;
pub mod storage;

pub use controller::Controller;
