//! Assembling utterances, and the loop around it.

use sotone_core::audio::assembly::{
    CaptureState, Chunk, Phase, MAX_UTTERANCE_MS, POST_ROLL_MS, PRE_ROLL_MS,
};
use sotone_core::audio::channels::{
    downmix_plan, extract_channel, frame_count, overlap_at, resampling_plan, strongest_lag, Downmix,
    Overlap, Resampling,
};
use sotone_core::audio::device::{
    list_input_devices, pick_input_device, wants_listing, DeviceChoice, InputDeviceInfo,
};
use sotone_core::audio::engine::{
    callback_scratch_len, check_stream, death_reason, reconnect, status, utterance_from,
    EngineStatus, Reconnect, ReconnectState, SampleKind, Utterance,
};
use sotone_core::audio::error::AudioError;
use sotone_core::audio::level::{LevelMeter, MeterStep, LEVEL_INTERVAL_NANOS};
use sotone_core::audio::ring::{drain, drain_len, enqueue, ring_for, ring_of};
use sotone_core::audio::worker::{
    drain_scratch, overrun_report_due, CaptureOptions, CaptureWorker, Command, StreamShape,
    WorkerConfig,
};
use sotone_core::draft::handle::TARGET_SAMPLE_RATE;
use sotone_core::time::Duration;

/// Feeds a monotonically increasing ramp, so any reordering, gap or
/// duplication in the assembled utterance is visible as a broken sequence.
struct Ramp {
    next: f32,
}

impl Ramp {
    fn new() -> Self {
        Self { next: 0.0 }
    }

    fn chunk(&mut self, len: usize) -> Vec<f32> {
        (0..len)
            .map(|_| {
                let value = self.next;
                self.next += 1.0;
                value
            })
            .collect()
    }
}

fn ramp_range(start: usize, end: usize) -> Vec<f32> {
    (start..end).map(|v| v as f32).collect()
}

/// Feed a chunk and hand back every utterance it completed.
fn feed(state: &mut CaptureState<f32>, samples: &[f32]) -> Vec<Chunk<f32>> {
    let mut finished = Vec::new();
    state.push(samples, &mut finished);
    finished
}

/// A press that is expected to close nothing. Where a press *can* close a
/// chunk — inside a post-roll — the test names the return value instead, so
/// a chunk can never be discarded here by accident.
fn begin(state: &mut CaptureState<f32>) {
    assert!(
        state.begin().is_none(),
        "this press had no in-flight chunk to close"
    );
}

/// The single utterance a chunk was expected to complete.
fn feed_one(state: &mut CaptureState<f32>, samples: &[f32], what: &str) -> Chunk<f32> {
    let mut finished = feed(state, samples);
    assert_eq!(finished.len(), 1, "{what}");
    finished.remove(0)
}

/// Every ramp sample between two consecutive chunks is in one of them. An
/// overlap is the pre-roll doing its job; a gap is audio the user spoke and
/// Sotone lost.
fn assert_no_gap(first: &[f32], second: &[f32]) {
    let first_end = *first.last().expect("the first chunk has audio") + 1.0;
    let second_start = *second.first().expect("the second chunk has audio");
    assert!(
        second_start <= first_end,
        "samples {first_end}..{second_start} fell through the seam"
    );
}

#[test]
fn idle_audio_only_feeds_the_pre_roll() {
    let mut state = CaptureState::with_frame_limits(1, 4, 2, 100);
    let mut ramp = Ramp::new();
    assert!(feed(&mut state, &ramp.chunk(20)).is_empty());
    assert_eq!(state.pre_roll_len(), 4);
}

#[test]
fn the_pre_roll_keeps_only_the_most_recent_400ms() {
    // 1000 Hz mono makes the arithmetic legible: 400 ms is 400 samples.
    let mut state = CaptureState::new(1_000, 1);
    let mut ramp = Ramp::new();
    for _ in 0..20 {
        assert!(feed(&mut state, &ramp.chunk(100)).is_empty());
    }
    assert_eq!(state.pre_roll_len(), 400);

    // Beginning now must produce exactly the last 400 samples fed, in order.
    begin(&mut state);
    assert_eq!(state.utterance, ramp_range(1_600, 2_000));
}

#[test]
fn an_utterance_is_pre_roll_then_live_then_post_roll_with_no_gaps() {
    let mut state = CaptureState::new(1_000, 1);
    let mut ramp = Ramp::new();

    // 1000 samples of ambient audio; the last 400 become the pre-roll.
    assert!(feed(&mut state, &ramp.chunk(1_000)).is_empty());

    begin(&mut state);
    assert!(feed(&mut state, &ramp.chunk(300)).is_empty());
    assert!(state.end().is_none());

    // The chunk that straddles the end of the post-roll: 200 samples are
    // taken, the remaining 300 are not.
    let finished = feed_one(&mut state, &ramp.chunk(500), "post-roll must complete");

    // 400 pre-roll + 300 live + 200 post-roll, contiguous.
    assert_eq!(finished.raw, ramp_range(600, 1_500));
    assert_eq!(finished.raw.len(), 900);
    assert!(!finished.capped, "the user ended this one");
}

#[test]
fn audio_after_the_post_roll_still_refreshes_the_pre_roll() {
    let mut state = CaptureState::new(1_000, 1);
    let mut ramp = Ramp::new();
    begin(&mut state);
    assert!(state.end().is_none());
    assert_eq!(feed(&mut state, &ramp.chunk(1_000)).len(), 1);

    // The trailing 800 samples were not part of the utterance, but they are
    // the freshest audio, so the next utterance must start from them.
    begin(&mut state);
    assert_eq!(state.utterance, ramp_range(600, 1_000));
}

#[test]
fn a_second_begin_does_not_restart_the_utterance() {
    let mut state = CaptureState::with_frame_limits(1, 0, 2, 100);
    let mut ramp = Ramp::new();
    begin(&mut state);
    feed(&mut state, &ramp.chunk(10));
    // Refused, and refused *quietly* as far as the audio goes: the helper
    // asserts nothing was closed, and the recording carries straight on.
    begin(&mut state);
    assert_eq!(state.phase, Phase::Recording);
    feed(&mut state, &ramp.chunk(10));
    assert!(state.end().is_none());
    let finished = feed_one(&mut state, &ramp.chunk(2), "post-roll must complete");
    assert_eq!(finished.raw, ramp_range(0, 22));
}

#[test]
fn a_begin_inside_the_post_roll_closes_it_instead_of_vanishing() {
    // A toggle bug found in use: stop, then start again
    // before the 200 ms post-roll has run out. That second press used to be
    // ignored outright — no chunk, no log — so the user's next stop had
    // nothing to end and its release went on to stamp the following line.
    let mut state = CaptureState::with_frame_limits(1, 4, 8, 100);
    let mut ramp = Ramp::new();

    // Ambient audio, then the first recording.
    assert!(feed(&mut state, &ramp.chunk(10)).is_empty());
    begin(&mut state);
    assert!(feed(&mut state, &ramp.chunk(10)).is_empty());
    assert!(state.end().is_none());

    // Three samples into an eight-sample post-roll, the user starts again.
    assert!(feed(&mut state, &ramp.chunk(3)).is_empty());
    let first = state.begin().expect("the press must close the post-roll");
    assert_eq!(
        first.raw,
        ramp_range(6, 23),
        "pre-roll, live audio, and the tail collected up to the press"
    );
    assert!(!first.capped, "the user ended this one");
    assert!(!first.continued, "a press opened it");

    // And the second recording exists at all, which is the whole bug.
    assert_eq!(state.phase, Phase::Recording);
    assert!(feed(&mut state, &ramp.chunk(10)).is_empty());
    assert!(state.end().is_none());
    let second = feed_one(&mut state, &ramp.chunk(8), "post-roll must complete");
    assert_eq!(second.raw, ramp_range(19, 41));
    assert!(!second.continued, "a press opened this one too");

    assert_no_gap(&first.raw, &second.raw);
}

#[test]
fn a_post_roll_cut_short_by_a_begin_loses_no_samples() {
    // No pre-roll, so the two chunks must concatenate to exactly the audio
    // fed — the overlap-free version of the seam check above.
    let mut state = CaptureState::with_frame_limits(1, 0, 6, 100);
    let mut ramp = Ramp::new();
    begin(&mut state);
    assert!(feed(&mut state, &ramp.chunk(5)).is_empty());
    assert!(state.end().is_none());
    assert!(feed(&mut state, &ramp.chunk(2)).is_empty());

    let first = state.begin().expect("the press must close the post-roll");
    assert!(feed(&mut state, &ramp.chunk(5)).is_empty());
    assert!(state.end().is_none());
    let second = feed_one(&mut state, &ramp.chunk(6), "post-roll must complete");

    let heard: Vec<f32> = first.raw.iter().chain(second.raw.iter()).copied().collect();
    assert_eq!(heard, ramp_range(0, 18));
}

#[test]
fn a_zero_post_roll_leaves_no_chunk_for_the_next_begin_to_close() {
    // The degenerate `end()` arm hands the chunk back and goes idle, so a
    // press right behind it is an ordinary press with nothing to cut short.
    let mut state = CaptureState::with_frame_limits(1, 2, 0, 100);
    let mut ramp = Ramp::new();
    begin(&mut state);
    feed(&mut state, &ramp.chunk(3));
    let first = state.end().expect("a zero post-roll must finish on end");
    assert_eq!(first.raw, ramp_range(0, 3));

    begin(&mut state);
    assert_eq!(state.phase, Phase::Recording);
    let second = state.end().expect("a zero post-roll must finish on end");
    assert_eq!(second.raw, ramp_range(1, 3));
}

#[test]
fn end_without_begin_is_ignored() {
    let mut state = CaptureState::new(1_000, 1);
    assert!(state.end().is_none());
    let mut ramp = Ramp::new();
    assert!(feed(&mut state, &ramp.chunk(1_000)).is_empty());
}

#[test]
fn the_cap_splits_the_recording_instead_of_dropping_audio() {
    // 20 frames of cap, 4 of pre-roll, 2 of post-roll: the same shape as
    // 120 s / 400 ms / 200 ms, small enough to read.
    let mut state = CaptureState::with_frame_limits(1, 4, 2, 20);
    let mut ramp = Ramp::new();
    begin(&mut state);

    // 30 samples of speech over one cap: the first 20 close a chunk, the
    // rest carry on into the next one.
    let first = feed_one(&mut state, &ramp.chunk(30), "the cap must close a chunk");
    assert!(first.capped, "the cap ended this chunk, not the user");
    assert!(!first.continued, "a press opened this chunk");
    assert_eq!(first.raw, ramp_range(0, 20));

    // The seam: the new chunk opens with the pre-roll, which is the last 4
    // samples of the chunk just delivered, then continues with 16..30. No
    // sample is missing; the 4-sample overlap is the deliberate pre-roll.
    assert_eq!(state.utterance, ramp_range(16, 30));
    assert_eq!(state.phase, Phase::Recording, "capture must not stop");

    // And the user's eventual release ends this chunk normally, post-roll
    // and all.
    assert!(state.end().is_none());
    let second = feed_one(&mut state, &ramp.chunk(10), "post-roll must complete");
    assert!(!second.capped, "the user ended the second chunk");
    // The seam chunk was opened by the split, not by a press: no begin cue
    // ever sounded over its head, so the session must not trim one out.
    assert!(second.continued, "the split opened the second chunk");
    assert_eq!(second.raw, ramp_range(16, 32));

    // And the next press starts a press-opened chunk again.
    begin(&mut state);
    assert!(state.end().is_none());
    let third = feed_one(&mut state, &ramp.chunk(4), "post-roll must complete");
    assert!(!third.continued, "a press opened the third chunk");
}

#[test]
fn nothing_is_lost_across_a_split_that_lands_mid_chunk() {
    // Cap 10, no pre-roll, so the two chunks must concatenate to exactly
    // the audio fed — the overlap-free version of the seam test.
    let mut state = CaptureState::with_frame_limits(1, 0, 1, 10);
    let mut ramp = Ramp::new();
    begin(&mut state);

    // 25 samples through a 10-sample cap: two full chunks, 5 left live.
    let finished = feed(&mut state, &ramp.chunk(25));
    assert_eq!(finished.len(), 2);
    assert!(finished.iter().all(|chunk| chunk.capped));

    let mut heard: Vec<f32> = finished.iter().flat_map(|c| c.raw.clone()).collect();
    heard.extend(state.utterance.iter().copied());
    assert_eq!(heard, ramp_range(0, 25));
}

#[test]
fn the_cap_counts_the_pre_roll_too() {
    let mut state = CaptureState::with_frame_limits(1, 8, 1, 10);
    let mut ramp = Ramp::new();
    feed(&mut state, &ramp.chunk(8));
    begin(&mut state);
    assert_eq!(state.utterance.len(), 8);
    // Only 2 samples of room left, so the cap fires almost at once.
    let finished = feed(&mut state, &ramp.chunk(100));
    assert!(!finished.is_empty());
    assert_eq!(finished[0].raw, ramp_range(0, 10));
}

#[test]
fn stereo_buffers_stay_frame_aligned() {
    // 4 frames of pre-roll on 2 channels is 8 samples.
    let mut state = CaptureState::with_frame_limits(2, 4, 2, 100);

    // Interleave a left ramp with a constant right channel.
    let samples: Vec<f32> = (0..20).flat_map(|i| [i as f32, -1.0]).collect();
    assert!(feed(&mut state, &samples).is_empty());
    assert_eq!(state.pre_roll_len(), 8);

    begin(&mut state);
    // Left channel first in every frame: even indices carry the ramp.
    assert_eq!(
        state.utterance,
        vec![16.0, -1.0, 17.0, -1.0, 18.0, -1.0, 19.0, -1.0]
    );
}

#[test]
fn a_zero_length_post_roll_finishes_immediately() {
    let mut state = CaptureState::with_frame_limits(1, 2, 0, 100);
    let mut ramp = Ramp::new();
    feed(&mut state, &ramp.chunk(2));
    begin(&mut state);
    feed(&mut state, &ramp.chunk(3));
    let finished = state.end().expect("a zero post-roll must finish on end");
    assert_eq!(finished.raw, ramp_range(0, 5));
}

#[test]
fn abandoning_returns_the_partial_utterance() {
    let mut state = CaptureState::with_frame_limits(1, 2, 4, 100);
    let mut ramp = Ramp::new();
    begin(&mut state);
    feed(&mut state, &ramp.chunk(6));
    let salvaged = state.abandon().expect("partial audio must be handed back");
    assert_eq!(salvaged.raw, ramp_range(0, 6));
    assert!(!salvaged.capped);
    // And the state is idle again, not stuck mid-utterance.
    assert!(state.abandon().is_none());
    assert!(feed(&mut state, &ramp.chunk(4)).is_empty());
}

#[test]
fn utterance_duration_matches_its_sample_count() {
    let utterance = Utterance {
        samples: vec![0.0f32; TARGET_SAMPLE_RATE as usize / 2],
        sample_rate: TARGET_SAMPLE_RATE,
        normalize_gain: 1.0,
        native: None,
        capped: false,
        continued: false,
    };
    assert_eq!(utterance.duration(), Duration::from_millis(500));
}

#[test]
fn a_duration_is_rounded_to_the_nearest_nanosecond_and_ties_to_the_even_one() {
    let lasting = |samples: usize, sample_rate: u32| {
        let utterance = Utterance {
            samples: vec![0.0f32; samples],
            sample_rate,
            normalize_gain: 1.0,
            native: None,
            capped: false,
            continued: false,
        };
        utterance.duration().nanos
    };
    // Half way between two: 976562.5 and 2929687.5.
    assert_eq!(lasting(1, 1024), 976_562);
    assert_eq!(lasting(3, 1024), 2_929_688);
    // Nearer to one of them.
    assert_eq!(lasting(1, 3), 333_333_333);
    assert_eq!(lasting(2, 3), 666_666_667);
    assert_eq!(lasting(0, 16_000), 0);
    assert_eq!(lasting(5, 0), 0);
}

#[test]
fn the_overrun_counter_counts_samples_the_ring_could_not_take() {
    let (mut producer, mut consumer) = ring_of(8);
    let bits = |samples: &[f32]| samples.iter().map(|s| s.to_bits()).collect::<Vec<u32>>();
    let mut overruns = 0;

    overruns += enqueue(&mut producer, &bits(&[1.0, 2.0, 3.0, 4.0]));
    assert_eq!(overruns, 0);

    // Only 4 slots are free, so this 8-sample push is dropped whole.
    overruns += enqueue(&mut producer, &bits(&[0.0; 8]));
    assert_eq!(overruns, 8);

    // The all-or-nothing rule means the ring still holds exactly the first
    // push, undisturbed: no half-written frame.
    let out = drain(&mut consumer, 8, 1).expect("the first push");
    assert_eq!(out, bits(&[1.0, 2.0, 3.0, 4.0]));

    // With room again, pushes resume.
    overruns += enqueue(&mut producer, &bits(&[5.0; 8]));
    assert_eq!(overruns, 8);
}

#[test]
fn a_drain_takes_whole_frames_and_leaves_the_rest() {
    let (mut producer, mut consumer) = ring_of(16);
    assert_eq!(drain(&mut consumer, 8, 2), None);
    assert_eq!(enqueue(&mut producer, &[1, 2, 3, 4, 5]), 0);
    assert_eq!(drain(&mut consumer, 8, 2), Some(vec![1, 2, 3, 4]));
    assert_eq!(drain(&mut consumer, 8, 2), None);
    assert_eq!(enqueue(&mut producer, &[6]), 0);
    assert_eq!(drain(&mut consumer, 8, 2), Some(vec![5, 6]));
    assert_eq!(drain_len(7, 4, 3), 3);

    // Two seconds of stereo at 4 Hz is 16 samples.
    let (mut producer, _consumer) = ring_for(4, 2);
    assert_eq!(enqueue(&mut producer, &[0; 16]), 0);
    assert_eq!(enqueue(&mut producer, &[0]), 1);
}

#[test]
fn the_meter_says_nothing_at_all_while_no_recording_is_live() {
    let mut meter = LevelMeter::new(0);
    for step in 0..20 {
        let now = LEVEL_INTERVAL_NANOS * step;
        assert_eq!(meter.observe(512, false, now), MeterStep::Reset);
    }
}

#[test]
fn the_meter_reports_at_most_once_per_interval() {
    let mut meter = LevelMeter::new(0);

    // Ten buffers inside one interval: at most one reading comes out.
    for step in 0..10 {
        assert_eq!(meter.observe(256, true, step * 1_000_000), MeterStep::Hold);
    }

    // One interval later, exactly one.
    assert_eq!(
        meter.observe(256, true, LEVEL_INTERVAL_NANOS),
        MeterStep::Report { samples: 11 * 256 }
    );
    assert_eq!(meter.observe(256, true, LEVEL_INTERVAL_NANOS), MeterStep::Hold);
}

#[test]
fn a_recording_starts_from_its_own_audio_and_not_the_last_ones() {
    let mut meter = LevelMeter::new(0);
    assert_eq!(meter.observe(4_096, true, 0), MeterStep::Hold);
    assert_eq!(meter.observe(4_096, false, 5_000_000), MeterStep::Reset);
    // A new recording: the reading must describe it alone.
    assert_eq!(
        meter.observe(4_096, true, LEVEL_INTERVAL_NANOS),
        MeterStep::Report { samples: 4_096 }
    );
}

#[test]
fn the_post_roll_is_not_part_of_the_level() {
    let mut state: CaptureState<f32> = CaptureState::with_frame_limits(1, 2, 4, 100);
    assert!(!state.is_recording());
    begin(&mut state);
    assert!(state.is_recording(), "a press opens the meter");
    assert!(state.end().is_none());
    assert!(
        !state.is_recording(),
        "the key is up: the indicator and the bars are already idle"
    );
}

#[test]
fn native_retention_is_off_by_default() {
    // Production must not pay for the diagnostic copy.
    assert!(!CaptureOptions::default().retain_native);
}

#[test]
fn the_production_cap_is_two_minutes_of_frames() {
    assert_eq!(Duration::from_millis(MAX_UTTERANCE_MS), Duration::from_secs(120));
    let state: CaptureState<f32> = CaptureState::new(48_000, 2);
    assert_eq!(state.utterance_cap, 120 * 48_000 * 2);
    assert_eq!(state.pre_roll_cap, 400 * 48 * 2);
    assert_eq!((PRE_ROLL_MS, POST_ROLL_MS), (400, 200));
}

fn mono(sample_rate: u32) -> WorkerConfig {
    WorkerConfig { sample_rate, channels: 1, options: CaptureOptions { retain_native: true } }
}

#[test]
fn a_swap_hands_over_what_was_recorded_under_the_old_device() {
    let mut worker: CaptureWorker<u32> = CaptureWorker::new(mono(1_000));
    let first = worker.pass(&vec![Command::Begin], &vec![], false, &vec![vec![1, 2, 3]]);
    assert!(first.deliveries.is_empty());
    assert_eq!(first.recording, vec![true]);

    let shape = StreamShape { sample_rate: 2_000, channels: 2 };
    let second = worker.pass(&vec![], &vec![shape], false, &vec![vec![9, 9]]);
    assert_eq!(second.deliveries.len(), 1);
    assert_eq!(second.deliveries[0].chunk.raw, vec![1, 2, 3]);
    assert_eq!(second.deliveries[0].config.sample_rate, 1_000);
    assert_eq!(second.recording, vec![false]);
    assert_eq!(worker.config.sample_rate, 2_000);
    assert_eq!(worker.config.channels, 2);
    assert!(worker.config.options.retain_native);
}

#[test]
fn a_dying_device_loses_no_audio_that_was_captured() {
    let mut worker: CaptureWorker<u32> = CaptureWorker::new(mono(1_000));
    worker.pass(&vec![Command::Begin], &vec![], false, &vec![vec![1, 2]]);
    let last = worker.pass(&vec![], &vec![], true, &vec![]);
    assert_eq!(last.deliveries.len(), 1);
    assert_eq!(last.deliveries[0].chunk.raw, vec![1, 2]);
    assert!(!last.deliveries[0].chunk.capped);
}

#[test]
fn an_utterance_carries_its_flags_and_its_native_audio() {
    let chunk = |raw: Vec<i32>| Chunk { raw, capped: true, continued: true };
    let kept = utterance_from(chunk(vec![1, 2]), &mono(48_000), vec![7], 3);
    assert_eq!((kept.capped, kept.continued, kept.normalize_gain), (true, true, 3));
    let native = kept.native.expect("the copy was asked for");
    assert_eq!((native.samples, native.sample_rate, native.channels), (vec![1, 2], 48_000, 1));
    let plain = WorkerConfig { options: CaptureOptions::default(), ..mono(48_000) };
    assert_eq!(utterance_from(chunk(vec![1]), &plain, vec![7], 3).native, None);
}

#[test]
fn a_stream_without_channels_or_with_an_unknown_format_is_refused() {
    assert_eq!(check_stream("Mic", 2, SampleKind::F32, "F32"), Ok(()));
    let err = check_stream("Mic", 0, SampleKind::F32, "F32").expect_err("no channels");
    assert_eq!(err.message(), "input device 'Mic' reports 0 channels");
    let err = check_stream("Mic", 1, SampleKind::Other, "I24").expect_err("unknown");
    assert_eq!(
        err.message(),
        "input device 'Mic' delivers samples as I24, which Sotone cannot read"
    );
    assert_eq!(callback_scratch_len(2), 4_096);
    assert_eq!(callback_scratch_len(0), 2_048);
    assert_eq!(drain_scratch(mono(48_000)), 4_800);
    assert!(overrun_report_due(9, 8, 5_000));
    assert!(!overrun_report_due(9, 9, 5_000) && !overrun_report_due(9, 8, 4_999));
}

#[test]
fn every_audio_error_says_what_happened() {
    let reason = || "why".to_owned();
    let device = || "Mic".to_owned();
    let cases = vec![
        (AudioError::NoInputDevice, "no audio input device is available"),
        (AudioError::Enumerate { reason: reason() }, "could not list audio input devices"),
        (
            AudioError::DefaultConfig { device: device(), reason: reason() },
            "could not read the default input configuration of 'Mic'",
        ),
        (
            AudioError::BuildStream { device: device(), reason: reason() },
            "could not open an input stream on 'Mic'",
        ),
        (
            AudioError::PlayStream { device: device(), reason: reason() },
            "could not start the input stream on 'Mic'",
        ),
        (
            AudioError::ResamplerConstruction { reason: reason() },
            "could not build a resampler to 16000 Hz",
        ),
        (
            AudioError::Resample { reason: reason() },
            "could not resample the utterance to 16000 Hz",
        ),
        (
            AudioError::ResampleBuffer { reason: reason() },
            "internal resampler buffer has the wrong shape",
        ),
        (AudioError::ThreadSpawn { reason: reason() }, "could not start the audio thread"),
        (
            AudioError::StreamThreadDied,
            "the audio stream thread stopped before the stream was ready",
        ),
        (
            AudioError::WorkerGone,
            "the capture worker has stopped, so the microphone cannot be changed",
        ),
    ];
    for (error, sentence) in cases {
        assert_eq!(error.message(), sentence);
    }
}

#[test]
fn a_pinned_microphone_falls_back_to_the_default() {
    let names = vec!["Realtek HD Audio".to_owned(), "Yeti Stereo Microphone".to_owned()];
    assert_eq!(pick_input_device(&names, Some("yeti"), true), Ok(DeviceChoice::Listed(1)));
    assert_eq!(pick_input_device(&names, Some("shure"), true), Ok(DeviceChoice::Default));
    assert_eq!(pick_input_device(&names, None, true), Ok(DeviceChoice::Default));
    assert_eq!(pick_input_device(&names, Some("shure"), false), Err(AudioError::NoInputDevice));
    assert!(wants_listing(Some("yeti")) && !wants_listing(Some("  ")) && !wants_listing(None));
    assert_eq!(
        list_input_devices(&names, Some("Yeti Stereo Microphone")),
        vec![
            InputDeviceInfo { name: names[0].clone(), is_default: false },
            InputDeviceInfo { name: names[1].clone(), is_default: true },
        ]
    );
}

#[test]
fn a_dead_engine_says_why_as_far_as_it_is_known() {
    assert_eq!(status(false, &None), EngineStatus::Running);
    assert_eq!(
        status(true, &None),
        EngineStatus::Dead { reason: "the audio device stopped".to_owned() }
    );
    assert_eq!(
        status(true, &Some("unplugged".to_owned())),
        EngineStatus::Dead { reason: "unplugged".to_owned() }
    );
}

#[test]
fn a_failed_change_of_device_puts_the_previous_one_back() {
    let gone = || AudioError::NoInputDevice;
    let name = || "Yeti".to_owned();
    assert!(matches!(
        reconnect(ReconnectState::Opening, Ok(name())),
        ReconnectState::Done { outcome: Reconnect::Switched { device } } if device == "Yeti"
    ));
    let reverting = reconnect(ReconnectState::Opening, Err(AudioError::WorkerGone));
    assert!(matches!(
        reconnect(reverting, Ok(name())),
        ReconnectState::Done {
            outcome: Reconnect::Reverted { device, error: AudioError::WorkerGone }
        } if device == "Yeti"
    ));
    let reverting = reconnect(ReconnectState::Opening, Err(AudioError::WorkerGone));
    let lost = reconnect(reverting, Err(gone()));
    assert!(matches!(
        lost,
        ReconnectState::Done {
            outcome: Reconnect::Lost {
                error: AudioError::WorkerGone,
                revert_error: AudioError::NoInputDevice,
            }
        }
    ));
    assert_eq!(
        death_reason(&gone()),
        "no microphone could be opened: no audio input device is available"
    );
}

#[test]
fn a_channel_is_one_sample_of_every_whole_frame() {
    let stereo = [1.0f32, -1.0, 2.0, -2.0, 3.0, -3.0, 9.0];
    assert_eq!(extract_channel(&stereo, 2, 0), vec![1.0, 2.0, 3.0]);
    assert_eq!(extract_channel(&stereo, 2, 1), vec![-1.0, -2.0, -3.0]);
    assert!(extract_channel(&stereo, 2, 2).is_empty());
    assert_eq!(extract_channel(&stereo, 0, 0), stereo.to_vec());
    assert_eq!(frame_count(7, 2), 3);
    assert_eq!(frame_count(7, 0), 0);
}

#[test]
fn a_conversion_does_only_what_is_needed() {
    assert_eq!(downmix_plan(0, Some(1)), Downmix::AsIs);
    assert_eq!(downmix_plan(1, None), Downmix::AsIs);
    assert_eq!(downmix_plan(2, Some(1)), Downmix::Take(1));
    assert_eq!(downmix_plan(2, None), Downmix::Average);
    assert_eq!(resampling_plan(0, 48_000), Resampling::Nothing);
    assert_eq!(resampling_plan(1, TARGET_SAMPLE_RATE), Resampling::AsIs);
    assert_eq!(resampling_plan(1, 44_100), Resampling::Convert);
}

#[test]
fn two_channels_overlap_less_the_further_apart_they_are_read() {
    assert_eq!(overlap_at(10, 10, 0), Some(Overlap { left: 0, right: 0, len: 10 }));
    assert_eq!(overlap_at(10, 10, 3), Some(Overlap { left: 0, right: 3, len: 7 }));
    assert_eq!(overlap_at(10, 10, -3), Some(Overlap { left: 3, right: 0, len: 7 }));
    assert_eq!(overlap_at(2, 2, 3), None);
    assert_eq!(overlap_at(2, 2, -3), None);
    let mut strengths = [0u32; 17];
    assert_eq!(strongest_lag(&strengths), 0);
    strengths[5] = 7;
    strengths[9] = 7;
    assert_eq!(strongest_lag(&strengths), -3);
    strengths[16] = 8;
    assert_eq!(strongest_lag(&strengths), 8);
}
