//! The configuration the process is started with.  Loading and parsing the
//! on-disk form is the caller's business; the library only speaks these
//! plain values.  Threshold lists are ordered ambient thresholds (for the
//! time-of-day source: the lux curve over the hours of the day).

use std::collections::HashMap;
use vstd::prelude::*;

verus! {

#[derive(Clone, Debug)]
pub enum Capturer {
    Wlroots,
    NoCapture,
}

#[derive(Clone, Debug)]
pub enum Processor {
    Vulkan,
}

#[derive(Debug)]
pub enum Als {
    Iio { path: String, thresholds: Vec<u64> },
    Time { thresholds: Vec<u64> },
    Webcam { video: usize, thresholds: Vec<u64> },
    NoSensor,
}

#[derive(Clone, Debug)]
pub struct BacklightOutput {
    pub name: String,
    pub path: String,
    pub capturer: Capturer,
}

#[derive(Clone, Debug)]
pub struct DdcUtilOutput {
    pub name: String,
    pub capturer: Capturer,
}

#[derive(Clone, Debug)]
pub enum Output {
    Backlight(BacklightOutput),
    DdcUtil(DdcUtilOutput),
}

#[derive(Debug)]
pub struct OutputByType {
    pub backlight: Vec<BacklightOutput>,
    pub ddcutil: Vec<DdcUtilOutput>,
}

#[derive(Debug)]
pub struct Keyboard {
    pub path: String,
}

#[derive(Debug)]
pub struct Keyboards {
    pub backlight: HashMap<String, Keyboard>,
}

#[derive(Debug)]
pub struct Config {
    pub als: Als,
    pub output: OutputByType,
    pub keyboard: Option<Keyboards>,
}

} // verus!
