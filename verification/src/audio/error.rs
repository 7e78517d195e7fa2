//! Failures in the capture pipeline.

use crate::text::{a_part_occurs_in_the_whole, decimal, glue, occurs_in, push_decimal};
use vstd::prelude::*;

verus! {

/// Why the microphone could not be opened, or an utterance not prepared.
#[derive(Debug, PartialEq, Eq)]
pub enum AudioError {
    /// The system reports no usable microphone at all.
    NoInputDevice,
    /// The host refused to enumerate its devices.
    Enumerate { reason: String },
    /// The device has no default input configuration.
    DefaultConfig { device: String, reason: String },
    /// The device reports zero channels.
    ImpossibleChannelCount { device: String, channels: u16 },
    /// The device delivers a sample format that is not converted.
    UnsupportedSampleFormat { device: String, format: String },
    /// The stream could not be created.
    BuildStream { device: String, reason: String },
    /// The stream was created but refused to start.
    PlayStream { device: String, reason: String },
    /// A resampler could not be constructed for this rate pair.
    ResamplerConstruction { reason: String },
    /// Resampling a finished utterance failed.
    Resample { reason: String },
    /// A resampler buffer was rejected as the wrong size.
    ResampleBuffer { reason: String },
    /// One of the audio threads could not be spawned.
    ThreadSpawn { reason: String },
    /// The stream thread went away before it reported success or failure.
    StreamThreadDied,
    /// A reconnect opened a device with nobody left to drain it.
    WorkerGone,
}

/// What an [`AudioError`] holds.
pub enum AudioErrorView {
    NoInputDevice,
    Enumerate { reason: Seq<char> },
    DefaultConfig { device: Seq<char>, reason: Seq<char> },
    ImpossibleChannelCount { device: Seq<char>, channels: u16 },
    UnsupportedSampleFormat { device: Seq<char>, format: Seq<char> },
    BuildStream { device: Seq<char>, reason: Seq<char> },
    PlayStream { device: Seq<char>, reason: Seq<char> },
    ResamplerConstruction { reason: Seq<char> },
    Resample { reason: Seq<char> },
    ResampleBuffer { reason: Seq<char> },
    ThreadSpawn { reason: Seq<char> },
    StreamThreadDied,
    WorkerGone,
}

impl View for AudioError {
    type V = AudioErrorView;

    open spec fn view(&self) -> AudioErrorView {
        match self {
            AudioError::NoInputDevice => AudioErrorView::NoInputDevice,
            AudioError::Enumerate { reason } => AudioErrorView::Enumerate { reason: reason@ },
            AudioError::DefaultConfig { device, reason } => AudioErrorView::DefaultConfig {
                device: device@,
                reason: reason@,
            },
            AudioError::ImpossibleChannelCount { device, channels } =>
                AudioErrorView::ImpossibleChannelCount { device: device@, channels: *channels },
            AudioError::UnsupportedSampleFormat { device, format } =>
                AudioErrorView::UnsupportedSampleFormat { device: device@, format: format@ },
            AudioError::BuildStream { device, reason } => AudioErrorView::BuildStream {
                device: device@,
                reason: reason@,
            },
            AudioError::PlayStream { device, reason } => AudioErrorView::PlayStream {
                device: device@,
                reason: reason@,
            },
            AudioError::ResamplerConstruction { reason } =>
                AudioErrorView::ResamplerConstruction { reason: reason@ },
            AudioError::Resample { reason } => AudioErrorView::Resample { reason: reason@ },
            AudioError::ResampleBuffer { reason } => AudioErrorView::ResampleBuffer {
                reason: reason@,
            },
            AudioError::ThreadSpawn { reason } => AudioErrorView::ThreadSpawn { reason: reason@ },
            AudioError::StreamThreadDied => AudioErrorView::StreamThreadDied,
            AudioError::WorkerGone => AudioErrorView::WorkerGone,
        }
    }
}

/// The sentence that tells the user what happened.
pub open spec fn audio_error_text(e: AudioErrorView) -> Seq<char> {
    match e {
        AudioErrorView::NoInputDevice => "no audio input device is available"@,
        AudioErrorView::Enumerate { .. } => "could not list audio input devices"@,
        AudioErrorView::DefaultConfig { device, .. } =>
            "could not read the default input configuration of '"@ + device + "'"@,
        AudioErrorView::ImpossibleChannelCount { device, channels } => "input device '"@ + device
            + "' reports "@ + decimal(channels as nat) + " channels"@,
        AudioErrorView::UnsupportedSampleFormat { device, format } => "input device '"@ + device
            + "' delivers samples as "@ + format + ", which Sotone cannot read"@,
        AudioErrorView::BuildStream { device, .. } => "could not open an input stream on '"@
            + device + "'"@,
        AudioErrorView::PlayStream { device, .. } => "could not start the input stream on '"@
            + device + "'"@,
        AudioErrorView::ResamplerConstruction { .. } =>
            "could not build a resampler to 16000 Hz"@,
        AudioErrorView::Resample { .. } => "could not resample the utterance to 16000 Hz"@,
        AudioErrorView::ResampleBuffer { .. } => "internal resampler buffer has the wrong shape"@,
        AudioErrorView::ThreadSpawn { .. } => "could not start the audio thread"@,
        AudioErrorView::StreamThreadDied =>
            "the audio stream thread stopped before the stream was ready"@,
        AudioErrorView::WorkerGone =>
            "the capture worker has stopped, so the microphone cannot be changed"@,
    }
}

impl AudioError {
    /// The sentence that tells the user what happened.
    pub fn message(&self) -> (r: String)
        ensures
            r@ == audio_error_text(self@),
    {
        match self {
            AudioError::NoInputDevice => "no audio input device is available".to_owned(),
            AudioError::Enumerate { .. } => "could not list audio input devices".to_owned(),
            AudioError::DefaultConfig { device, .. } => glue(
                "could not read the default input configuration of '",
                device,
                "'",
            ),
            AudioError::ImpossibleChannelCount { device, channels } => {
                let mut out = glue("input device '", device, "' reports ");
                push_decimal(&mut out, *channels as u64);
                out.push_str(" channels");
                out
            },
            AudioError::UnsupportedSampleFormat { device, format } => {
                let head = glue("input device '", device, "' delivers samples as ");
                glue(&head, format, ", which Sotone cannot read")
            },
            AudioError::BuildStream { device, .. } => glue(
                "could not open an input stream on '",
                device,
                "'",
            ),
            AudioError::PlayStream { device, .. } => glue(
                "could not start the input stream on '",
                device,
                "'",
            ),
            AudioError::ResamplerConstruction { .. } =>
                "could not build a resampler to 16000 Hz".to_owned(),
            AudioError::Resample { .. } =>
                "could not resample the utterance to 16000 Hz".to_owned(),
            AudioError::ResampleBuffer { .. } =>
                "internal resampler buffer has the wrong shape".to_owned(),
            AudioError::ThreadSpawn { .. } => "could not start the audio thread".to_owned(),
            AudioError::StreamThreadDied =>
                "the audio stream thread stopped before the stream was ready".to_owned(),
            AudioError::WorkerGone =>
                "the capture worker has stopped, so the microphone cannot be changed".to_owned(),
        }
    }
}

/// The sentence of an error names the device it is about, and what is wrong with
/// it where that is a number or a format.
pub proof fn an_error_names_its_device(e: AudioErrorView)
    ensures
        e matches AudioErrorView::DefaultConfig { device, .. } ==> occurs_in(
            device,
            audio_error_text(e),
        ),
        e matches AudioErrorView::ImpossibleChannelCount { device, channels } ==> occurs_in(
            device,
            audio_error_text(e),
        ) && occurs_in(decimal(channels as nat), audio_error_text(e)),
        e matches AudioErrorView::UnsupportedSampleFormat { device, format } ==> occurs_in(
            device,
            audio_error_text(e),
        ) && occurs_in(format, audio_error_text(e)),
        e matches AudioErrorView::BuildStream { device, .. } ==> occurs_in(
            device,
            audio_error_text(e),
        ),
        e matches AudioErrorView::PlayStream { device, .. } ==> occurs_in(
            device,
            audio_error_text(e),
        ),
{
    let text = audio_error_text(e);
    match e {
        AudioErrorView::DefaultConfig { device, .. } => {
            a_part_occurs_in_the_whole(
                "could not read the default input configuration of '"@,
                device,
                "'"@,
            );
        },
        AudioErrorView::ImpossibleChannelCount { device, channels } => {
            let (x, y, z) = ("input device '"@, "' reports "@, " channels"@);
            let n = decimal(channels as nat);
            a_part_occurs_in_the_whole(x, device, y + n + z);
            assert(text =~= x + device + (y + n + z));
            a_part_occurs_in_the_whole(x + device + y, n, z);
        },
        AudioErrorView::UnsupportedSampleFormat { device, format } => {
            let (x, y, z) = (
                "input device '"@,
                "' delivers samples as "@,
                ", which Sotone cannot read"@,
            );
            a_part_occurs_in_the_whole(x, device, y + format + z);
            assert(text =~= x + device + (y + format + z));
            a_part_occurs_in_the_whole(x + device + y, format, z);
        },
        AudioErrorView::BuildStream { device, .. } => {
            a_part_occurs_in_the_whole("could not open an input stream on '"@, device, "'"@);
        },
        AudioErrorView::PlayStream { device, .. } => {
            a_part_occurs_in_the_whole("could not start the input stream on '"@, device, "'"@);
        },
        _ => {},
    }
}

} // verus!
