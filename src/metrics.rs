use vstd::prelude::*;

verus! {

/// One step of a counter that stops at the top of its range instead of
/// wrapping.
pub open spec fn bumped(x: u64) -> u64 {
    if x < u64::MAX {
        (x + 1) as u64
    } else {
        x
    }
}

/// One step down of a counter that stops at zero.
pub open spec fn dropped(x: u64) -> u64 {
    if x > 0 {
        (x - 1) as u64
    } else {
        0
    }
}

/// Exponential moving average with weight 7/8 on the previous value; a
/// previous value of `empty` means "no sample yet" and is replaced outright.
pub open spec fn ema(current: int, sample: int, empty: int) -> int {
    if current == empty {
        sample
    } else {
        (current * 7 + sample) / 8
    }
}

/// Compressed size per original size, in thousandths, held to the `u64` range.
pub open spec fn ratio_permille(original: int, compressed: int) -> int {
    if compressed * 1000 / original > u64::MAX {
        u64::MAX as int
    } else {
        compressed * 1000 / original
    }
}

/// The value a ratio average starts from: a ratio of one.
pub const NEUTRAL_RATIO_PERMILLE: u64 = 1000;

pub(crate) fn bump(x: u64) -> (r: u64)
    ensures
        r == bumped(x),
{
    if x < u64::MAX {
        x + 1
    } else {
        x
    }
}

fn ema_step(current: u64, sample: u64, empty: u64) -> (r: u64)
    ensures
        r == ema(current as int, sample as int, empty as int),
{
    if current == empty {
        sample
    } else {
        let wide: u128 = (current as u128) * 7 + (sample as u128);
        assert(wide / 8 <= u64::MAX) by (nonlinear_arith)
            requires
                wide == current * 7 + sample,
                current <= u64::MAX,
                sample <= u64::MAX,
        ;
        (wide / 8) as u64
    }
}

/// Process-wide counters and averages of the streaming pipeline. Recording
/// never fails: counters stop at the ends of their range.
pub struct Metrics {
    pub active_connections: u64,
    pub total_connections: u64,
    pub frames_captured: u64,
    pub frames_sent: u64,
    pub frames_delivered: u64,
    pub frames_dropped: u64,
    pub capture_errors: u64,
    pub avg_capture_duration_ms: u64,
    pub avg_compression_duration_ms: u64,
    /// Average compressed/original size ratio, in thousandths.
    pub compression_ratio: u64,
}

/// A point-in-time copy of every metric.
pub struct MetricsSummary {
    pub active_connections: u64,
    pub total_connections: u64,
    pub frames_captured: u64,
    pub frames_sent: u64,
    pub frames_delivered: u64,
    pub frames_dropped: u64,
    pub capture_errors: u64,
    pub avg_capture_duration_ms: u64,
    pub avg_compression_duration_ms: u64,
    /// Compressed/original size ratio, in thousandths.
    pub compression_ratio_permille: u64,
}

impl Metrics {
    /// Every counter and average at rest.
    pub open spec fn is_fresh(&self) -> bool {
        &&& self.active_connections == 0
        &&& self.total_connections == 0
        &&& self.frames_captured == 0
        &&& self.frames_sent == 0
        &&& self.frames_delivered == 0
        &&& self.frames_dropped == 0
        &&& self.capture_errors == 0
        &&& self.avg_capture_duration_ms == 0
        &&& self.avg_compression_duration_ms == 0
        &&& self.compression_ratio == NEUTRAL_RATIO_PERMILLE
    }

    pub fn new() -> (r: Metrics)
        ensures
            r.is_fresh(),
    {
        Metrics {
            active_connections: 0,
            total_connections: 0,
            frames_captured: 0,
            frames_sent: 0,
            frames_delivered: 0,
            frames_dropped: 0,
            capture_errors: 0,
            avg_capture_duration_ms: 0,
            avg_compression_duration_ms: 0,
            compression_ratio: NEUTRAL_RATIO_PERMILLE,
        }
    }

    pub fn increment_connections(&mut self)
        ensures
            final(self).active_connections == bumped(old(self).active_connections),
            final(self).total_connections == bumped(old(self).total_connections),
            final(self).frames_captured == old(self).frames_captured,
            final(self).frames_sent == old(self).frames_sent,
            final(self).frames_delivered == old(self).frames_delivered,
            final(self).frames_dropped == old(self).frames_dropped,
            final(self).capture_errors == old(self).capture_errors,
            final(self).avg_capture_duration_ms == old(self).avg_capture_duration_ms,
            final(self).avg_compression_duration_ms == old(self).avg_compression_duration_ms,
            final(self).compression_ratio == old(self).compression_ratio,
    {
        self.active_connections = bump(self.active_connections);
        self.total_connections = bump(self.total_connections);
    }

    pub fn decrement_connections(&mut self)
        ensures
            *final(self) == (Metrics { active_connections: dropped(old(self).active_connections), ..*old(self) }),
    {
        if self.active_connections > 0 {
            self.active_connections = self.active_connections - 1;
        }
    }

    pub fn get_active_connections(&self) -> (r: u64)
        ensures
            r == self.active_connections,
    {
        self.active_connections
    }

    pub fn increment_frames_captured(&mut self)
        ensures
            *final(self) == (Metrics { frames_captured: bumped(old(self).frames_captured), ..*old(self) }),
    {
        self.frames_captured = bump(self.frames_captured);
    }

    pub fn increment_frames_sent(&mut self)
        ensures
            *final(self) == (Metrics { frames_sent: bumped(old(self).frames_sent), ..*old(self) }),
    {
        self.frames_sent = bump(self.frames_sent);
    }

    pub fn increment_frames_delivered(&mut self)
        ensures
            *final(self) == (Metrics { frames_delivered: bumped(old(self).frames_delivered), ..*old(self) }),
    {
        self.frames_delivered = bump(self.frames_delivered);
    }

    pub fn increment_dropped_frames(&mut self)
        ensures
            *final(self) == (Metrics { frames_dropped: bumped(old(self).frames_dropped), ..*old(self) }),
    {
        self.frames_dropped = bump(self.frames_dropped);
    }

    pub fn increment_capture_errors(&mut self)
        ensures
            *final(self) == (Metrics { capture_errors: bumped(old(self).capture_errors), ..*old(self) }),
    {
        self.capture_errors = bump(self.capture_errors);
    }

    /// Folds one capture duration, in whole milliseconds, into its average.
    pub fn record_capture_duration(&mut self, duration_ms: u64)
        ensures
            *final(self) == (Metrics {
                avg_capture_duration_ms: ema(old(self).avg_capture_duration_ms as int, duration_ms as int, 0) as u64,
                ..*old(self)
            }),
    {
        self.avg_capture_duration_ms = ema_step(self.avg_capture_duration_ms, duration_ms, 0);
    }

    /// Folds one compression duration, in whole milliseconds, into its average.
    pub fn record_compression_duration(&mut self, duration_ms: u64)
        ensures
            *final(self) == (Metrics {
                avg_compression_duration_ms: ema(old(self).avg_compression_duration_ms as int, duration_ms as int, 0) as u64,
                ..*old(self)
            }),
    {
        self.avg_compression_duration_ms = ema_step(self.avg_compression_duration_ms, duration_ms, 0);
    }

    /// Folds the ratio of one compression into its average; an empty original
    /// leaves the metrics as they were.
    pub fn record_compression_ratio(&mut self, original_size: usize, compressed_size: usize)
        ensures
            original_size == 0 ==> *final(self) == *old(self),
            original_size > 0 ==> *final(self) == (Metrics {
                compression_ratio: ema(
                    old(self).compression_ratio as int,
                    ratio_permille(original_size as int, compressed_size as int),
                    NEUTRAL_RATIO_PERMILLE as int,
                ) as u64,
                ..*old(self)
            }),
    {
        if original_size > 0 {
            let wide: u128 = (compressed_size as u128) * 1000 / (original_size as u128);
            let ratio: u64 = if wide > u64::MAX as u128 {
                u64::MAX
            } else {
                wide as u64
            };
            self.compression_ratio = ema_step(self.compression_ratio, ratio, NEUTRAL_RATIO_PERMILLE);
        }
    }

    pub fn get_summary(&self) -> (r: MetricsSummary)
        ensures
            r.active_connections == self.active_connections,
            r.total_connections == self.total_connections,
            r.frames_captured == self.frames_captured,
            r.frames_sent == self.frames_sent,
            r.frames_delivered == self.frames_delivered,
            r.frames_dropped == self.frames_dropped,
            r.capture_errors == self.capture_errors,
            r.avg_capture_duration_ms == self.avg_capture_duration_ms,
            r.avg_compression_duration_ms == self.avg_compression_duration_ms,
            r.compression_ratio_permille == self.compression_ratio,
    {
        MetricsSummary {
            active_connections: self.active_connections,
            total_connections: self.total_connections,
            frames_captured: self.frames_captured,
            frames_sent: self.frames_sent,
            frames_delivered: self.frames_delivered,
            frames_dropped: self.frames_dropped,
            capture_errors: self.capture_errors,
            avg_capture_duration_ms: self.avg_capture_duration_ms,
            avg_compression_duration_ms: self.avg_compression_duration_ms,
            compression_ratio_permille: self.compression_ratio,
        }
    }
}

/// A fresh set of metrics for the process.
pub fn setup_metrics() -> (r: Metrics)
    ensures
        r.is_fresh(),
{
    Metrics::new()
}

} // verus!
