//! Detection of pauses between songs while a record plays.
//!
//! A strategy is fed the level of every block with the time at which the
//! block was taken, in milliseconds, and reports the boundaries it finds.

use vstd::prelude::*;

verus! {

/// What a strategy reports.
#[derive(Clone, Copy, Debug, PartialEq, Eq, Structural)]
pub enum PauseEvent {
    /// A pause has ended: the next song begins.
    SongBoundary,
}

/// What every strategy offers.
pub trait PauseDetectionStrategy {
    /// Takes the level of one block, taken at `now_ms`.
    fn feed_level(&mut self, level: i16, now_ms: u64) -> Option<PauseEvent>;

    /// Returns the number of the song that plays.
    fn song_number(&self) -> u32;

    /// Forgets what was heard and starts with song 1 at `now_ms`.
    fn reset(&mut self, now_ms: u64);
}

/// Reports a boundary when the level has stayed below a fixed threshold
/// for a minimum time and then rises again.
pub struct AbsoluteThresholdDetector {
    /// Level below which a block counts as pause.
    pub threshold: i16,
    /// Shortest pause that counts as a boundary.
    pub pause_duration_ms: u32,
    /// Level of the last block.
    pub current_level: i16,
    /// When the current pause began, while there is one.
    pub pause_start: Option<u64>,
    /// Number of the song that plays.
    pub song_count: u32,
    /// When the song that plays began.
    pub current_song_start: u64,
}

impl AbsoluteThresholdDetector {
    /// The block at `now` ends a pause that was long enough.
    pub open spec fn ends_pause(&self, level: i16, now: u64) -> bool {
        &&& level >= self.threshold
        &&& self.pause_start matches Some(start) && now >= start && now - start
            >= self.pause_duration_ms
    }

    /// How the block at `now` changes the detector into `after`: threshold
    /// and minimum time stay; a block below the threshold opens a pause
    /// unless one is open, any other block closes it; a block that ends a
    /// pause that was long enough begins the next song at `now`.
    pub open spec fn hears(&self, after: Self, level: i16, now: u64) -> bool {
        &&& after.threshold == self.threshold
        &&& after.pause_duration_ms == self.pause_duration_ms
        &&& after.current_level == level
        &&& after.pause_start == if level >= self.threshold {
            None
        } else if self.pause_start is Some {
            self.pause_start
        } else {
            Some(now)
        }
        &&& after.song_count == if self.ends_pause(level, now) && self.song_count < u32::MAX {
            (self.song_count + 1) as u32
        } else {
            self.song_count
        }
        &&& after.current_song_start == if self.ends_pause(level, now) {
            now
        } else {
            self.current_song_start
        }
    }

    /// Creates a detector that starts with song 1 at `now_ms`.
    pub fn new(threshold: i16, pause_duration_ms: u32, now_ms: u64) -> (r: Self)
        ensures
            r.threshold == threshold,
            r.pause_duration_ms == pause_duration_ms,
            r.pause_start is None,
            r.song_count == 1,
            r.current_song_start == now_ms,
    {
        AbsoluteThresholdDetector {
            threshold,
            pause_duration_ms,
            current_level: crate::audio_analysis::SILENCE_LEVEL,
            pause_start: None,
            song_count: 1,
            current_song_start: now_ms,
        }
    }

    /// Tells whether the last block was below the threshold.
    pub fn in_pause(&self) -> (r: bool)
        ensures
            r == self.pause_start is Some,
    {
        self.pause_start.is_some()
    }

    /// Takes the level of one block.
    ///
    /// A block below the threshold opens a pause, unless one is open. A
    /// block at or above it closes the open pause; where the pause lasted
    /// at least the minimum time, a boundary is reported and the next song
    /// begins.
    pub fn feed(&mut self, level: i16, now_ms: u64) -> (r: Option<PauseEvent>)
        ensures
            r is Some <==> old(self).ends_pause(level, now_ms),
            old(self).hears(*final(self), level, now_ms),
    {
        self.current_level = level;
        if level < self.threshold {
            if self.pause_start.is_none() {
                self.pause_start = Some(now_ms);
            }
            None
        } else {
            let mut event: Option<PauseEvent> = None;
            match self.pause_start {
                Some(start) => {
                    if now_ms >= start && now_ms - start >= self.pause_duration_ms as u64 {
                        if self.song_count < u32::MAX {
                            self.song_count = self.song_count + 1;
                        }
                        self.current_song_start = now_ms;
                        event = Some(PauseEvent::SongBoundary);
                    }
                },
                None => {},
            }
            self.pause_start = None;
            event
        }
    }

    /// Forgets what was heard and starts with song 1 at `now_ms`.
    pub fn restart(&mut self, now_ms: u64)
        ensures
            final(self).pause_start is None,
            final(self).song_count == 1,
            final(self).current_song_start == now_ms,
            final(self).threshold == old(self).threshold,
            final(self).pause_duration_ms == old(self).pause_duration_ms,
    {
        self.pause_start = None;
        self.song_count = 1;
        self.current_song_start = now_ms;
    }
}

impl PauseDetectionStrategy for AbsoluteThresholdDetector {
    fn feed_level(&mut self, level: i16, now_ms: u64) -> (r: Option<PauseEvent>)
        ensures
            r is Some <==> old(self).ends_pause(level, now_ms),
            old(self).hears(*final(self), level, now_ms),
    {
        self.feed(level, now_ms)
    }

    fn song_number(&self) -> (r: u32)
        ensures
            r == self.song_count,
    {
        self.song_count
    }

    fn reset(&mut self, now_ms: u64)
        ensures
            final(self).pause_start is None,
            final(self).song_count == 1,
            final(self).current_song_start == now_ms,
            final(self).threshold == old(self).threshold,
            final(self).pause_duration_ms == old(self).pause_duration_ms,
    {
        self.restart(now_ms)
    }
}

} // verus!
