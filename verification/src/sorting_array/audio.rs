use crate::config::ConfigError;
use crate::sorting_array::commands::{lowercase, same_text, to_lowercase};
use vstd::prelude::*;

verus! {

/// The shape of the wave that a value is heard as.
#[derive(Clone, Copy, Debug, PartialEq, Eq, Structural)]
pub enum Waveform {
    Sine,
    Haversine,
    Square,
    Triangle,
}

impl Default for Waveform {
    fn default() -> (waveform: Waveform)
        ensures
            waveform == Waveform::Haversine,
    {
        Waveform::Haversine
    }
}

impl Waveform {
    /// The waveform that a name in lower case stands for.
    pub open spec fn named_lower(name: Seq<char>) -> Result<Waveform, ConfigError> {
        if name == "sin"@ {
            Ok(Waveform::Sine)
        } else if name == "hsin"@ {
            Ok(Waveform::Haversine)
        } else if name == "square"@ {
            Ok(Waveform::Square)
        } else if name == "triangle"@ {
            Ok(Waveform::Triangle)
        } else {
            Err(ConfigError::Waveform)
        }
    }

    /// The waveform that a name stands for, in whatever case it is written.
    pub open spec fn named(name: Seq<char>) -> Result<Waveform, ConfigError> {
        Self::named_lower(lowercase(name))
    }

    /// The waveform that `name` stands for as it is written: one of `sin`, `hsin`, `square`
    /// and `triangle`.
    pub fn from_lowercase(name: &str) -> (r: Result<Waveform, ConfigError>)
        ensures
            r == Self::named_lower(name@),
    {
        if same_text(name, "sin") {
            Ok(Waveform::Sine)
        } else if same_text(name, "hsin") {
            Ok(Waveform::Haversine)
        } else if same_text(name, "square") {
            Ok(Waveform::Square)
        } else if same_text(name, "triangle") {
            Ok(Waveform::Triangle)
        } else {
            Err(ConfigError::Waveform)
        }
    }

    /// The waveform that `s` stands for once it is put in lower case.
    pub fn from_str(s: &str) -> (r: Result<Waveform, ConfigError>)
        ensures
            r == Self::named(s@),
    {
        let lower: String = to_lowercase(s);
        Self::from_lowercase(lower.as_str())
    }
}

} // verus!
