//! Vinyl and tape capture toolkit: level metering, automatic segmentation,
//! boundary analysis and release matching, with machine-checked contracts.

pub mod rate_limiter;
pub mod text;
pub mod numeric;
pub mod selection;
pub mod audio_analysis;
pub mod cuefile;
pub mod musicbrainz;
pub mod lookup;
pub mod wavfile;
pub mod decibel;
pub mod vu_meter;
pub mod recorder;
pub mod pipewire_utils;
pub mod audio_stream;
pub mod source_discovery;
pub mod songrec_cache;
pub mod json;
pub mod album_identifier;
pub mod toml_tree;
pub mod discogs;
pub mod config;
pub mod detection_strategies;
pub mod pause_detector;
pub mod shazam;
pub mod lookup_discogs;
pub mod lookup_musicbrainz;
pub mod album_finder;
pub mod boundary_finder;
