use vstd::prelude::*;
use crate::broadcast::{live_count, Broadcaster};
use crate::compression::{message_of, next_frame_id, Compressor};
use crate::config::{CompressionConfig, Config};
use crate::metrics::{bumped, Metrics};

verus! {

/// Failures in a row after which each failed tick waits before the next.
pub const BACKOFF_AFTER: u64 = 5;

/// Wait per counted failure, in milliseconds.
pub const BACKOFF_STEP_MS: u64 = 100;

/// The longest wait after failures, in milliseconds.
pub const BACKOFF_CAP_MS: u64 = 1000;

/// A failure is logged when the count of failures is a multiple of this.
pub const LOG_EVERY: u64 = 10;

/// The extra wait after a failed tick, given the failure count: none up to
/// `BACKOFF_AFTER`, then growing linearly up to a cap.
pub open spec fn backoff_for(errors: u64) -> int {
    if errors > BACKOFF_AFTER {
        if errors * BACKOFF_STEP_MS < BACKOFF_CAP_MS {
            errors * BACKOFF_STEP_MS
        } else {
            BACKOFF_CAP_MS as int
        }
    } else {
        0
    }
}

/// Past `BACKOFF_AFTER` failures in a row, the wait before the next attempt
/// is at least one step per failure, up to the cap.
pub proof fn lemma_backoff_floor(errors: u64)
    requires
        errors > BACKOFF_AFTER,
    ensures
        backoff_for(errors) >= if errors * BACKOFF_STEP_MS < BACKOFF_CAP_MS {
            errors * BACKOFF_STEP_MS
        } else {
            BACKOFF_CAP_MS as int
        },
        backoff_for(errors) > 0,
{
}

pub fn backoff_delay_ms(errors: u64) -> (r: u64)
    ensures
        r == backoff_for(errors),
{
    if errors <= BACKOFF_AFTER {
        0
    } else if errors >= BACKOFF_CAP_MS / BACKOFF_STEP_MS {
        BACKOFF_CAP_MS
    } else {
        errors * BACKOFF_STEP_MS
    }
}

/// What the driver of the loop does after a tick.
pub struct TickReport {
    /// A message went out to the subscribers.
    pub published: bool,
    /// Building the message failed.
    pub failed: bool,
    /// The failure is one to log (not every one is, to keep the log readable).
    pub log_error: bool,
    /// Extra milliseconds to wait before the next tick, on top of the tick
    /// interval.
    pub backoff_ms: u64,
}

/// The periodic producer: each tick takes one frame, frames it and hands it
/// to the subscribers, and keeps count of failures.
pub struct CaptureLoop {
    compressor: Compressor,
    interval_ms: u64,
    frame_count: u64,
    error_count: u64,
    reset_on_success: bool,
}

impl CaptureLoop {
    pub closed spec fn compression(&self) -> CompressionConfig {
        self.compressor.config()
    }

    /// The id of the next message built.
    pub closed spec fn next_id(&self) -> u64 {
        self.compressor.frame_counter()
    }

    /// Failures counted so far (since the last clean tick, where the loop
    /// resets on success).
    pub closed spec fn errors(&self) -> u64 {
        self.error_count
    }

    /// Ticks that produced a frame.
    pub closed spec fn frames(&self) -> u64 {
        self.frame_count
    }

    pub closed spec fn resets_on_success(&self) -> bool {
        self.reset_on_success
    }

    pub closed spec fn interval(&self) -> u64 {
        self.interval_ms
    }

    /// A loop for `config`; `reset_on_success` says whether a clean tick
    /// clears the failure count, or the count only ever grows.
    pub fn new(config: &Config, reset_on_success: bool) -> (r: CaptureLoop)
        requires
            config.capture.fps > 0,
        ensures
            r.compression() == config.compression,
            r.next_id() == 0,
            r.errors() == 0,
            r.frames() == 0,
            r.resets_on_success() == reset_on_success,
            r.interval() == 1000int / (config.capture.fps as int),
    {
        CaptureLoop {
            compressor: Compressor::new(config.compression),
            interval_ms: config.frame_interval_ms(),
            frame_count: 0,
            error_count: 0,
            reset_on_success,
        }
    }

    /// Milliseconds between two ticks.
    pub fn interval_ms(&self) -> (r: u64)
        ensures
            r == self.interval(),
    {
        self.interval_ms
    }

    pub fn error_count(&self) -> (r: u64)
        ensures
            r == self.errors(),
    {
        self.error_count
    }

    pub fn frame_count(&self) -> (r: u64)
        ensures
            r == self.frames(),
    {
        self.frame_count
    }

    /// One tick. `frame` is what the source gave, or, when `source_ok` is
    /// false, a stand-in frame made in its place; either way it is sent on, so
    /// clients keep receiving a stream. A failing source counts as a failure
    /// but brings no extra wait. With nobody subscribed nothing is built: no
    /// frame id is used and nothing is compressed. A message that cannot be
    /// built counts as a failure and, past `BACKOFF_AFTER` failures, brings an
    /// extra wait. The loop has no way to stop itself.
    pub fn tick(
        &mut self,
        frame: Vec<u8>,
        width: u32,
        height: u32,
        source_ok: bool,
        capture_ms: u64,
        bc: &mut Broadcaster,
        metrics: &mut Metrics,
    ) -> (r: TickReport)
        requires
            old(bc).wf(),
            old(bc)@.history.len() < u64::MAX,
        ensures
            final(bc).wf(),
            final(self).compression() == old(self).compression(),
            final(self).interval() == old(self).interval(),
            final(self).resets_on_success() == old(self).resets_on_success(),
            ({
                let e1 = if source_ok {
                    old(self).errors()
                } else {
                    bumped(old(self).errors())
                };
                let live = !old(bc)@.closed && live_count(old(bc)@.cursors) > 0;
                &&& !live ==> {
                    &&& final(bc)@ == old(bc)@
                    &&& final(self).next_id() == old(self).next_id()
                    &&& !r.published && !r.failed && r.backoff_ms == 0
                }
                &&& live ==> final(self).next_id() == next_frame_id(old(self).next_id())
                &&& r.published ==> live && r.backoff_ms == 0 && exists|ts: u64|
                    final(bc)@ == old(bc)@.publish(
                        #[trigger] message_of(old(self).compression(), old(self).next_id(), ts, width, height, frame@),
                    )
                &&& live && !old(self).compression().enabled ==> r.published
                &&& r.published || r.failed || !live
                &&& !(r.published && r.failed)
                &&& r.failed ==> {
                    &&& final(bc)@ == old(bc)@
                    &&& final(self).errors() == bumped(e1)
                    &&& final(self).frames() == old(self).frames()
                    &&& r.backoff_ms == backoff_for(bumped(e1))
                    &&& r.log_error == (bumped(e1) % LOG_EVERY == 0)
                    &&& final(metrics).capture_errors == bumped(
                        if source_ok { old(metrics).capture_errors } else { bumped(old(metrics).capture_errors) },
                    )
                }
                &&& !r.failed ==> {
                    &&& final(self).errors() == if source_ok && old(self).resets_on_success() {
                        0
                    } else {
                        e1
                    }
                    &&& final(self).frames() == bumped(old(self).frames())
                    &&& !r.log_error
                    &&& final(metrics).capture_errors == if source_ok {
                        old(metrics).capture_errors
                    } else {
                        bumped(old(metrics).capture_errors)
                    }
                    &&& final(metrics).frames_captured == bumped(old(metrics).frames_captured)
                }
                &&& final(metrics).frames_sent == if r.published {
                    bumped(old(metrics).frames_sent)
                } else {
                    old(metrics).frames_sent
                }
            }),
    {
        metrics.record_capture_duration(capture_ms);
        if !source_ok {
            self.error_count = crate::metrics::bump(self.error_count);
            metrics.increment_capture_errors();
        }
        if bc.subscriber_count() == 0 || bc.is_closed() {
            self.frame_done(source_ok, metrics);
            return TickReport { published: false, failed: false, log_error: false, backoff_ms: 0 };
        }
        let ghost e1 = self.error_count;
        match self.compressor.create_frame_message(frame, width, height) {
            Ok(message) => {
                let ghost m = message@;
                let ghost ts = choose|ts: u64|
                    m == #[trigger] message_of(old(self).compression(), old(self).next_id(), ts, width, height, frame@);
                let sent = bc.publish(message);
                assert(bc@ == old(bc)@.publish(
                    message_of(old(self).compression(), old(self).next_id(), ts, width, height, frame@),
                ));
                metrics.increment_frames_sent();
                self.frame_done(source_ok, metrics);
                TickReport { published: true, failed: false, log_error: false, backoff_ms: 0 }
            },
            Err(_) => {
                self.error_count = crate::metrics::bump(self.error_count);
                metrics.increment_capture_errors();
                TickReport {
                    published: false,
                    failed: true,
                    log_error: self.error_count % LOG_EVERY == 0,
                    backoff_ms: backoff_delay_ms(self.error_count),
                }
            },
        }
    }

    fn frame_done(&mut self, source_ok: bool, metrics: &mut Metrics)
        ensures
            final(self).compressor == old(self).compressor,
            final(self).interval_ms == old(self).interval_ms,
            final(self).reset_on_success == old(self).reset_on_success,
            final(self).frame_count == bumped(old(self).frame_count),
            final(self).error_count == if source_ok && old(self).reset_on_success {
                0
            } else {
                old(self).error_count
            },
            *final(metrics) == (Metrics { frames_captured: bumped(old(metrics).frames_captured), ..*old(metrics) }),
    {
        self.frame_count = crate::metrics::bump(self.frame_count);
        if source_ok && self.reset_on_success {
            self.error_count = 0;
        }
        metrics.increment_frames_captured();
    }
}

} // verus!
