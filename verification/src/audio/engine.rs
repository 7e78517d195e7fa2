//! The engine's decisions: which streams it accepts, what a change of device
//! comes to, and what it says of itself.

use crate::audio::assembly::Chunk;
use crate::audio::error::{audio_error_text, AudioError, AudioErrorView};
use crate::audio::worker::WorkerConfig;
use crate::draft::handle::TARGET_SAMPLE_RATE;
use crate::text::{glue, opt_text, owned};
use crate::time::Duration;
use vstd::prelude::*;

verus! {

// ---------------------------------------------------------------------------
// Opening a stream
// ---------------------------------------------------------------------------

/// How a device delivers its samples.
#[derive(Debug, Clone, Copy, PartialEq, Eq, Structural)]
pub enum SampleKind {
    I8,
    I16,
    I32,
    U8,
    U16,
    U32,
    F32,
    F64,
    /// Any other format.
    Other,
}

/// Refuses a device whose streams cannot be read: one without channels, or one
/// with a sample format that is not converted. `format` is what the device
/// calls its format.
pub fn check_stream(device: &str, channels: u16, kind: SampleKind, format: &str) -> (r: Result<
    (),
    AudioError,
>)
    ensures
        match r {
            Ok(_) => channels != 0 && kind != SampleKind::Other,
            Err(e) => if channels == 0 {
                e@ == (AudioErrorView::ImpossibleChannelCount { device: device@, channels })
            } else {
                kind == SampleKind::Other && e@ == (AudioErrorView::UnsupportedSampleFormat {
                    device: device@,
                    format: format@,
                })
            },
        },
{
    if channels == 0 {
        return Err(AudioError::ImpossibleChannelCount { device: owned(device), channels });
    }
    match kind {
        SampleKind::Other => Err(
            AudioError::UnsupportedSampleFormat { device: owned(device), format: owned(format) },
        ),
        _ => Ok(()),
    }
}

/// How many frames the data callback converts at a time.
pub const CALLBACK_SCRATCH_FRAMES: usize = 2048;

/// The length of the data callback's buffer: whole frames, so that every part
/// of a delivery that is cut there is whole frames too.
pub fn callback_scratch_len(channels: u16) -> (r: usize)
    ensures
        r == CALLBACK_SCRATCH_FRAMES * (if channels == 0 {
            1int
        } else {
            channels as int
        }),
        r > 0,
{
    let channels: usize = if channels == 0 {
        1
    } else {
        channels as usize
    };
    CALLBACK_SCRATCH_FRAMES * channels
}

// ---------------------------------------------------------------------------
// Status
// ---------------------------------------------------------------------------

/// Whether the stream is still alive.
#[derive(Debug, PartialEq, Eq)]
pub enum EngineStatus {
    /// The stream is live.
    Running,
    /// The stream failed. Nothing reopens it by itself.
    Dead { reason: String },
}

/// The engine's status, from the flag a failing stream sets and the reason that
/// was recorded, if one was yet.
pub fn status(dead: bool, reason: &Option<String>) -> (r: EngineStatus)
    ensures
        match r {
            EngineStatus::Running => !dead,
            EngineStatus::Dead { reason: said } => dead && said@ == (match opt_text(*reason) {
                Some(why) => why,
                None => "the audio device stopped"@,
            }),
        },
{
    if !dead {
        return EngineStatus::Running;
    }
    match reason {
        Some(why) => EngineStatus::Dead { reason: why.clone() },
        None => EngineStatus::Dead { reason: owned("the audio device stopped") },
    }
}

/// What is recorded when not even the previous device could be reopened.
pub fn death_reason(why: &AudioError) -> (r: String)
    ensures
        r@ == "no microphone could be opened: "@ + audio_error_text(why@),
{
    let text = why.message();
    let r = glue("no microphone could be opened: ", &text, "");
    proof {
        reveal_strlit("");
        assert(r@ =~= "no microphone could be opened: "@ + audio_error_text(why@));
    }
    r
}

// ---------------------------------------------------------------------------
// Changing the device
// ---------------------------------------------------------------------------

/// What one change of device did.
#[derive(Debug, PartialEq, Eq)]
pub enum Reconnect {
    /// The requested device is open and capturing.
    Switched { device: String },
    /// The request failed; the previous device is open again and capturing.
    Reverted { device: String, error: AudioError },
    /// The request failed and so did putting the old one back: nothing is
    /// capturing.
    Lost { error: AudioError, revert_error: AudioError },
}

/// Where a change of device stands.
#[derive(Debug)]
pub enum ReconnectState {
    /// The requested device is to be opened.
    Opening,
    /// It could not be; the previous one is to be put back.
    Reverting { error: AudioError },
    /// Nothing more is to be done.
    Done { outcome: Reconnect },
}

/// `after` is what a change of device comes to next, when opening a device went
/// as `opened` says.
pub open spec fn reconnects_to(
    before: ReconnectState,
    opened: Result<String, AudioError>,
    after: ReconnectState,
) -> bool {
    match (before, opened) {
        (ReconnectState::Opening, Ok(name)) => after matches ReconnectState::Done { outcome }
            && outcome matches Reconnect::Switched { device } && device@ == name@,
        (ReconnectState::Opening, Err(why)) => after matches ReconnectState::Reverting { error }
            && error@ == why@,
        (ReconnectState::Reverting { error: first }, Ok(name)) => after matches
            ReconnectState::Done { outcome } && outcome matches Reconnect::Reverted {
            device,
            error,
        } && device@ == name@ && error@ == first@,
        (ReconnectState::Reverting { error: first }, Err(why)) => after matches
            ReconnectState::Done { outcome } && outcome matches Reconnect::Lost {
            error,
            revert_error,
        } && error@ == first@ && revert_error@ == why@,
        (ReconnectState::Done { outcome }, _) => after == before,
    }
}

/// The next step of a change of device, once opening a device went one way or
/// the other. A failed request puts the previous device back; only when that
/// fails too is nothing capturing.
pub fn reconnect(state: ReconnectState, opened: Result<String, AudioError>) -> (r: ReconnectState)
    ensures
        reconnects_to(state, opened, r),
{
    match state {
        ReconnectState::Opening => match opened {
            Ok(device) => ReconnectState::Done { outcome: Reconnect::Switched { device } },
            Err(error) => ReconnectState::Reverting { error },
        },
        ReconnectState::Reverting { error } => match opened {
            Ok(device) => ReconnectState::Done { outcome: Reconnect::Reverted { device, error } },
            Err(revert_error) => ReconnectState::Done {
                outcome: Reconnect::Lost { error, revert_error },
            },
        },
        ReconnectState::Done { outcome } => ReconnectState::Done { outcome },
    }
}

// ---------------------------------------------------------------------------
// Utterances
// ---------------------------------------------------------------------------

/// The untouched native-rate audio of an utterance.
#[derive(Debug, PartialEq)]
pub struct NativeAudio<T> {
    /// Interleaved samples exactly as the device delivered them.
    pub samples: Vec<T>,
    /// The device's rate.
    pub sample_rate: u32,
    /// The device's channel count.
    pub channels: u16,
}

/// A finished utterance.
#[derive(Debug, PartialEq)]
pub struct Utterance<T> {
    /// Mono samples at `sample_rate`, pre-roll first.
    pub samples: Vec<T>,
    /// Always the rate the transcriber wants.
    pub sample_rate: u32,
    /// Gain that was applied.
    pub normalize_gain: T,
    /// The native audio, when the engine was asked to keep it.
    pub native: Option<NativeAudio<T>>,
    /// The cap ended this chunk, not the user.
    pub capped: bool,
    /// A cap split opened this chunk, not a press.
    pub continued: bool,
}

/// The channel count as the device reports it: one when it is out of range.
pub open spec fn reported_channels(channels: usize) -> u16 {
    if channels <= u16::MAX {
        channels as u16
    } else {
        1
    }
}

/// The channel count as the device reports it.
pub fn channels_of(config: &WorkerConfig) -> (r: u16)
    ensures
        r == reported_channels(config.channels),
{
    if config.channels <= 0xffff {
        config.channels as u16
    } else {
        1
    }
}

/// The utterance a chunk becomes, once it has been turned into `samples` at the
/// transcriber's rate with `gain` applied. The flags are the chunk's; the
/// native audio is kept only when it was asked for.
pub fn utterance_from<T>(chunk: Chunk<T>, config: &WorkerConfig, samples: Vec<T>, gain: T) -> (r:
    Utterance<T>)
    ensures
        r.samples@ == samples@,
        r.sample_rate == TARGET_SAMPLE_RATE,
        r.normalize_gain == gain,
        r.capped == chunk.capped,
        r.continued == chunk.continued,
        match r.native {
            Some(native) => config.options.retain_native && native.samples@ == chunk.raw@
                && native.sample_rate == config.sample_rate && native.channels == reported_channels(
                config.channels,
            ),
            None => !config.options.retain_native,
        },
{
    let native = if config.options.retain_native {
        Some(
            NativeAudio {
                samples: chunk.raw,
                sample_rate: config.sample_rate,
                channels: channels_of(config),
            },
        )
    } else {
        None
    };
    Utterance {
        samples,
        sample_rate: TARGET_SAMPLE_RATE,
        normalize_gain: gain,
        native,
        capped: chunk.capped,
        continued: chunk.continued,
    }
}

/// How long that many samples last at that rate, to the nearest nanosecond, and
/// to the even one of two that are equally near. At no rate they last no time.
pub open spec fn lasting(samples: int, sample_rate: int) -> int {
    if sample_rate == 0 {
        0
    } else {
        let whole = samples * 1_000_000_000 / sample_rate;
        let rest = samples * 1_000_000_000 % sample_rate;
        if 2 * rest > sample_rate || (2 * rest == sample_rate && whole % 2 == 1) {
            whole + 1
        } else {
            whole
        }
    }
}

impl<T> Utterance<T> {
    /// How long the utterance is.
    pub fn duration(&self) -> (r: Duration)
        ensures
            r.nanos == lasting(self.samples@.len() as int, self.sample_rate as int),
    {
        if self.sample_rate == 0 {
            return Duration::zero();
        }
        let n: u128 = self.samples.len() as u128;
        let rate: u128 = self.sample_rate as u128;
        let whole: u128 = n * 1_000_000_000 / rate;
        let rest: u128 = n * 1_000_000_000 % rate;
        if 2 * rest > rate || (2 * rest == rate && whole % 2 == 1) {
            Duration { nanos: whole + 1 }
        } else {
            Duration { nanos: whole }
        }
    }
}

} // verus!
