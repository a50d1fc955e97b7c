use vstd::prelude::*;

verus! {

/// Failure taxonomy of the bridge. Packet loss, underrun and overrun are not
/// errors: they are states the transition engine moves through.
#[derive(Clone, Copy, Debug, PartialEq, Eq, Structural)]
pub enum StreamError {
    /// A capture device configuration the converter refuses (> 2 channels).
    ConfigUnsupported,
    /// The audio endpoint failed during open, start, or a callback.
    DeviceFailed,
    /// The packet source or sink failed; fatal for the stream.
    TransportFailed,
    /// The task driving the stream was cancelled.
    Cancelled,
}

/// Tuning supplied at stream construction, immutable thereafter.
#[derive(Clone, Copy, Debug, PartialEq, Eq, Structural)]
pub struct AudioConfig {
    /// Duration of one render batch and of a fade ramp, in milliseconds.
    pub batch_ms: u64,
    /// Target occupancy of the jitter buffer, in milliseconds.
    pub average_buffering_ms: u64,
}

/// Upper bound on frame counts the engine accepts; keeps every index and
/// fade product comfortably inside the machine integer types.
pub const MAX_FRAMES: usize = 0x0800_0000;

/// How many frames a duration in milliseconds spans at the given rate.
pub open spec fn frames_of_ms(sample_rate: u32, ms: u64) -> int {
    sample_rate * ms / 1000
}

/// Derived per-stream quantities: everything the playback engine needs.
#[derive(Clone, Copy, Debug, PartialEq, Eq, Structural)]
pub struct PlaybackParams {
    /// Interleaved channel count; 1 or 2.
    pub channels: usize,
    /// Frames in one render batch and one fade ramp.
    pub batch_frames: usize,
    /// Target occupancy of the jitter buffer, in frames.
    pub avg_frames: usize,
}

impl PlaybackParams {
    /// The well-formedness every engine operation relies on.
    pub open spec fn valid(self) -> bool {
        &&& 1 <= self.channels <= 2
        &&& 1 <= self.batch_frames <= self.avg_frames
        &&& self.avg_frames <= MAX_FRAMES
    }

    /// Derives the frame quantities from the negotiated channel count, the
    /// device sample rate and the configured durations. Returns `None`
    /// exactly when the inputs fall outside what the engine supports:
    /// a channel count other than 1 or 2, a batch that rounds to zero
    /// frames, a target occupancy below the batch, or frame counts too
    /// large for the engine's arithmetic.
    pub fn new(channels: u16, sample_rate: u32, config: &AudioConfig) -> (r: Option<
        PlaybackParams,
    >)
        ensures
            ({
                let bf = frames_of_ms(sample_rate, config.batch_ms);
                let af = frames_of_ms(sample_rate, config.average_buffering_ms);
                if 1 <= channels <= 2 && 1 <= bf <= af && af <= MAX_FRAMES {
                    r == Some(
                        PlaybackParams {
                            channels: channels as usize,
                            batch_frames: bf as usize,
                            avg_frames: af as usize,
                        },
                    )
                } else {
                    r is None
                }
            }),
            r is Some ==> r->Some_0.valid(),
    {
        if channels < 1 || channels > 2 {
            return None;
        }
        let sr: u128 = sample_rate as u128;
        let bm: u128 = config.batch_ms as u128;
        let am: u128 = config.average_buffering_ms as u128;
        proof {
            assert(sr * bm <= u128::MAX && sr * am <= u128::MAX) by (nonlinear_arith)
                requires
                    sr <= u32::MAX,
                    bm <= u64::MAX,
                    am <= u64::MAX,
            ;
        }
        let bf: u128 = sr * bm / 1000;
        let af: u128 = sr * am / 1000;
        if bf < 1 || bf > af || af > MAX_FRAMES as u128 {
            return None;
        }
        Some(
            PlaybackParams {
                channels: channels as usize,
                batch_frames: bf as usize,
                avg_frames: af as usize,
            },
        )
    }
}

} // verus!
