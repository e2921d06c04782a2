//! Saved defaults of the recorder.
//!
//! Every setting is optional. Settings are layered: what a later layer
//! sets replaces what an earlier one set, so that built-in defaults give
//! way to the saved file, and the saved file to the command line. Times
//! are in microseconds, levels in hundredths of a decibel.

use vstd::prelude::*;
use vstd::string::StringExecFns;

verus! {

/// One layer of settings.
#[derive(Clone, Debug)]
pub struct Config {
    /// Address of the audio source.
    pub source: Option<String>,
    /// Sample rate.
    pub rate: Option<u32>,
    /// Number of channels.
    pub channels: Option<usize>,
    /// Name of the sample format.
    pub format: Option<String>,
    /// Time between two updates of the meter.
    pub interval_us: Option<u64>,
    /// Range of the scale below the ceiling.
    pub db_range: Option<i16>,
    /// Ceiling of the scale.
    pub max_db: Option<i16>,
    /// Level above which the input is on.
    pub off_threshold: Option<i16>,
    /// Length of the silence window.
    pub silence_duration_us: Option<u64>,
    /// Shortest recording that is kept.
    pub min_length_us: Option<u64>,
    /// Whether the meter is hidden.
    pub no_vumeter: Option<bool>,
    /// Whether the keyboard is ignored.
    pub no_keyboard: Option<bool>,
}

/// What the upper of two layers leaves of a setting.
pub open spec fn layered<T>(lower: Option<T>, upper: Option<T>) -> Option<T> {
    if upper is Some {
        upper
    } else {
        lower
    }
}

impl Config {
    /// No setting is made.
    pub open spec fn is_empty(&self) -> bool {
        &&& self.source is None
        &&& self.rate is None
        &&& self.channels is None
        &&& self.format is None
        &&& self.interval_us is None
        &&& self.db_range is None
        &&& self.max_db is None
        &&& self.off_threshold is None
        &&& self.silence_duration_us is None
        &&& self.min_length_us is None
        &&& self.no_vumeter is None
        &&& self.no_keyboard is None
    }

    /// `self` is `lower` with `upper` laid over it.
    pub open spec fn is_merge_of(&self, lower: Config, upper: Config) -> bool {
        &&& self.source == layered(lower.source, upper.source)
        &&& self.rate == layered(lower.rate, upper.rate)
        &&& self.channels == layered(lower.channels, upper.channels)
        &&& self.format == layered(lower.format, upper.format)
        &&& self.interval_us == layered(lower.interval_us, upper.interval_us)
        &&& self.db_range == layered(lower.db_range, upper.db_range)
        &&& self.max_db == layered(lower.max_db, upper.max_db)
        &&& self.off_threshold == layered(lower.off_threshold, upper.off_threshold)
        &&& self.silence_duration_us == layered(
            lower.silence_duration_us,
            upper.silence_duration_us,
        )
        &&& self.min_length_us == layered(lower.min_length_us, upper.min_length_us)
        &&& self.no_vumeter == layered(lower.no_vumeter, upper.no_vumeter)
        &&& self.no_keyboard == layered(lower.no_keyboard, upper.no_keyboard)
    }

    /// Creates a layer without settings.
    pub fn new() -> (r: Self)
        ensures
            r.is_empty(),
    {
        Config {
            source: None,
            rate: None,
            channels: None,
            format: None,
            interval_us: None,
            db_range: None,
            max_db: None,
            off_threshold: None,
            silence_duration_us: None,
            min_length_us: None,
            no_vumeter: None,
            no_keyboard: None,
        }
    }

    /// The built-in defaults.
    pub fn defaults() -> (r: Self)
        ensures
            r.source is None,
            r.rate == Some(96000u32),
            r.channels == Some(2usize),
            r.format matches Some(f) && f@ == "s32"@,
            r.interval_us == Some(200_000u64),
            r.db_range == Some(9000i16),
            r.max_db == Some(0i16),
            r.off_threshold == Some(-6000i16),
            r.silence_duration_us == Some(10_000_000u64),
            r.min_length_us == Some(600_000_000u64),
            r.no_vumeter == Some(false),
            r.no_keyboard == Some(false),
    {
        Config {
            source: None,
            rate: Some(96000),
            channels: Some(2),
            format: Some(String::from_str("s32")),
            interval_us: Some(200_000),
            db_range: Some(9000),
            max_db: Some(0),
            off_threshold: Some(-6000),
            silence_duration_us: Some(10_000_000),
            min_length_us: Some(600_000_000),
            no_vumeter: Some(false),
            no_keyboard: Some(false),
        }
    }

    /// Lays `other` over this layer: every setting that `other` makes
    /// replaces the one made here.
    pub fn merge(&mut self, other: &Config)
        ensures
            final(self).is_merge_of(*old(self), *other),
    {
        match &other.source {
            Some(s) => {
                self.source = Some(s.clone());
            },
            None => {},
        }
        if other.rate.is_some() {
            self.rate = other.rate;
        }
        if other.channels.is_some() {
            self.channels = other.channels;
        }
        match &other.format {
            Some(s) => {
                self.format = Some(s.clone());
            },
            None => {},
        }
        if other.interval_us.is_some() {
            self.interval_us = other.interval_us;
        }
        if other.db_range.is_some() {
            self.db_range = other.db_range;
        }
        if other.max_db.is_some() {
            self.max_db = other.max_db;
        }
        if other.off_threshold.is_some() {
            self.off_threshold = other.off_threshold;
        }
        if other.silence_duration_us.is_some() {
            self.silence_duration_us = other.silence_duration_us;
        }
        if other.min_length_us.is_some() {
            self.min_length_us = other.min_length_us;
        }
        if other.no_vumeter.is_some() {
            self.no_vumeter = other.no_vumeter;
        }
        if other.no_keyboard.is_some() {
            self.no_keyboard = other.no_keyboard;
        }
    }

    /// Returns the path of the saved defaults of the user whose home
    /// directory is `home`.
    pub fn get_config_path(home: &str) -> (r: String)
        ensures
            r@ == home@ + "/.state/autorec/defaults.toml"@,
    {
        let mut path = String::from_str(home);
        path.append("/.state/autorec/defaults.toml");
        path
    }
}

/// Laying layers over one another is associative: the command line over
/// the saved file over the defaults gives the same settings however the
/// layers are grouped.
pub proof fn lemma_layers_associate(
    a: Config,
    b: Config,
    c: Config,
    ab: Config,
    bc: Config,
    left: Config,
    right: Config,
)
    requires
        ab.is_merge_of(a, b),
        bc.is_merge_of(b, c),
        left.is_merge_of(ab, c),
        right.is_merge_of(a, bc),
    ensures
        left == right,
{
}

/// A setting made on the top layer is the setting in force.
pub proof fn lemma_top_layer_wins(lower: Config, upper: Config, merged: Config)
    requires
        merged.is_merge_of(lower, upper),
    ensures
        upper.rate is Some ==> merged.rate == upper.rate,
        upper.source is Some ==> merged.source == upper.source,
        upper.off_threshold is Some ==> merged.off_threshold == upper.off_threshold,
        upper.min_length_us is Some ==> merged.min_length_us == upper.min_length_us,
        upper.is_empty() ==> merged == lower,
{
}

} // verus!
