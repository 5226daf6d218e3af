//! The configuration in its typed form, as the rest of the library takes it.

use vstd::prelude::*;

verus! {

/// The whole configuration.
#[derive(Debug)]
pub struct Configuration {
    pub speech: Speech,
    pub arduino: Arduino,
    pub decoder: Decoder,
}

/// Which speech engine speaks, and how each one is set up.
#[derive(Debug)]
pub struct Speech {
    pub engine: String,
    pub sapi: Option<SpeechEngine>,
    pub espeak: Option<SpeechEngine>,
}

/// The settings of one speech engine.
#[derive(Debug)]
pub struct SpeechEngine {
    pub voice: String,
    pub volume: u8,
}

/// The board, the port that it is attached to, and its sensors.
#[derive(Debug)]
pub struct Arduino {
    pub board: String,
    pub port: String,
    pub sensors: Vec<ArduinoSensor>,
}

/// One sensor: where it is wired, what it is called, and its calibration.
#[derive(Debug)]
pub struct ArduinoSensor {
    pub pin: String,
    pub label: String,
    pub limits: (u16, u16),
    pub thresholds: (u8, u8),
}

/// The chord scheme: the sensor that confirms a chord, and the commands with
/// the chord of each.
#[derive(Debug)]
pub struct Decoder {
    pub confirm: usize,
    pub scheme: Vec<(String, Vec<usize>)>,
    pub prediction: DecoderPrediction,
}

/// Where the dictionary lies, if there is one, and how many words are
/// suggested.
#[derive(Debug)]
pub struct DecoderPrediction {
    pub dictionary: Option<String>,
    pub suggestions: usize,
}

} // verus!
