//! One pass of the capture worker: what the user asked for, then a change of
//! device, then a failure, then the audio.

use crate::audio::assembly::{
    abandoned, at_least_one, begun, chunks_view, device_state, ended, frames_in, opt_chunk,
    pre_roll_fits, pushed, CaptureState, CaptureView, Chunk, ChunkView, Phase, MAX_UTTERANCE_MS,
};
use vstd::prelude::*;

verus! {

/// Diagnostics an engine can be started with.
#[derive(Debug, Clone, Copy, PartialEq, Eq, Structural)]
pub struct CaptureOptions {
    /// Also hand back the untouched native-rate interleaved audio.
    pub retain_native: bool,
}

impl Default for CaptureOptions {
    fn default() -> (r: CaptureOptions)
        ensures
            !r.retain_native,
    {
        CaptureOptions { retain_native: false }
    }
}

/// The shape of the worker's input.
#[derive(Debug, Clone, Copy, PartialEq, Eq, Structural)]
pub struct WorkerConfig {
    /// The device's rate.
    pub sample_rate: u32,
    /// The device's channels, at least one.
    pub channels: usize,
    /// What the engine was started with.
    pub options: CaptureOptions,
}

/// What the hotkey layer asks for.
#[derive(Debug, Clone, Copy, PartialEq, Eq, Structural)]
pub enum Command {
    Begin,
    End,
}

/// The shape of a freshly opened stream.
#[derive(Debug, Clone, Copy, PartialEq, Eq, Structural)]
pub struct StreamShape {
    pub sample_rate: u32,
    pub channels: u16,
}

/// A finished chunk, with the configuration it was captured under.
#[derive(Debug)]
pub struct Delivery<T> {
    pub chunk: Chunk<T>,
    pub config: WorkerConfig,
}

/// What a [`Delivery`] holds.
pub struct DeliveryView<T> {
    pub chunk: ChunkView<T>,
    pub config: WorkerConfig,
}

impl<T> View for Delivery<T> {
    type V = DeliveryView<T>;

    open spec fn view(&self) -> DeliveryView<T> {
        DeliveryView { chunk: self.chunk@, config: self.config }
    }
}

/// The contents of a list of deliveries.
pub open spec fn deliveries_view<T>(d: Seq<Delivery<T>>) -> Seq<DeliveryView<T>> {
    d.map_values(|d: Delivery<T>| d@)
}

/// The chunks, tagged with a configuration.
pub open spec fn tagged<T>(chunks: Seq<ChunkView<T>>, config: WorkerConfig) -> Seq<DeliveryView<T>> {
    chunks.map_values(|c: ChunkView<T>| DeliveryView { chunk: c, config })
}

/// The capture worker's state between passes.
#[derive(Debug)]
pub struct CaptureWorker<T> {
    pub state: CaptureState<T>,
    pub config: WorkerConfig,
}

/// What a [`CaptureWorker`] holds.
pub struct WorkerView<T> {
    pub state: CaptureView<T>,
    pub config: WorkerConfig,
}

impl<T> View for CaptureWorker<T> {
    type V = WorkerView<T>;

    open spec fn view(&self) -> WorkerView<T> {
        WorkerView { state: self.state@, config: self.config }
    }
}

/// What one pass hands over.
#[derive(Debug)]
pub struct PassOutput<T> {
    /// The finished chunks, in the order they were spoken.
    pub deliveries: Vec<Delivery<T>>,
    /// For each buffer of audio, whether a recording was live when it came.
    pub recording: Vec<bool>,
}

// ---------------------------------------------------------------------------
// What a pass does
// ---------------------------------------------------------------------------

/// An optional chunk as a list.
pub open spec fn listed<T>(c: Option<ChunkView<T>>) -> Seq<ChunkView<T>> {
    match c {
        Some(c) => seq![c],
        None => Seq::empty(),
    }
}

/// The commands, in order: the state after them, and the chunks they closed.
pub open spec fn commanded<T>(s: CaptureView<T>, commands: Seq<Command>) -> (
    CaptureView<T>,
    Seq<ChunkView<T>>,
)
    decreases commands.len(),
{
    if commands.len() == 0 {
        (s, Seq::empty())
    } else {
        let (mid, out) = commanded(s, commands.drop_last());
        let (end, closed) = match commands.last() {
            Command::Begin => begun(mid),
            Command::End => ended(mid),
        };
        (end, out + listed(closed))
    }
}

/// The configuration for a new stream: its shape, the same options.
pub open spec fn config_for(old: WorkerConfig, shape: StreamShape) -> WorkerConfig {
    WorkerConfig {
        sample_rate: shape.sample_rate,
        channels: at_least_one(shape.channels as nat) as usize,
        options: old.options,
    }
}

/// A worker that has just been given a stream.
pub open spec fn worker_for<T>(config: WorkerConfig) -> WorkerView<T> {
    WorkerView { state: device_state(config.sample_rate, config.channels as nat), config }
}

/// The changes of device, in order: the worker after them, the finished chunks
/// that are still to be handed over, and those that were. Whatever was in
/// flight is handed over under the configuration it was captured with, before
/// the new one takes effect.
pub open spec fn swapped<T>(
    w: WorkerView<T>,
    finished: Seq<ChunkView<T>>,
    swaps: Seq<StreamShape>,
) -> (WorkerView<T>, Seq<ChunkView<T>>, Seq<DeliveryView<T>>)
    decreases swaps.len(),
{
    if swaps.len() == 0 {
        (w, finished, Seq::empty())
    } else {
        let (mid, waiting, out) = swapped(w, finished, swaps.drop_last());
        let stranded = waiting + listed(abandoned(mid.state).1);
        (
            worker_for(config_for(mid.config, swaps.last())),
            Seq::empty(),
            out + tagged(stranded, mid.config),
        )
    }
}

/// The buffers of audio, in order: the state after them, and the chunks they
/// completed.
pub open spec fn heard<T>(s: CaptureView<T>, audio: Seq<Seq<T>>) -> (
    CaptureView<T>,
    Seq<ChunkView<T>>,
)
    decreases audio.len(),
{
    if audio.len() == 0 {
        (s, Seq::empty())
    } else {
        let (mid, out) = heard(s, audio.drop_last());
        let (end, more) = pushed(mid, audio.last());
        (end, out + more)
    }
}

/// The state the audio of a pass meets: after the commands, the changes of
/// device and a failure.
pub open spec fn met_by_audio<T>(
    w: WorkerView<T>,
    commands: Seq<Command>,
    swaps: Seq<StreamShape>,
    died: bool,
) -> CaptureView<T> {
    let (s1, f1) = commanded(w.state, commands);
    let w2 = swapped(WorkerView { state: s1, ..w }, f1, swaps).0;
    if died {
        abandoned(w2.state).0
    } else {
        w2.state
    }
}

/// One pass: the worker after it, and what it hands over. Commands come first,
/// so that a press is in effect before the audio that follows it is sorted;
/// then changes of device; then a failure, which gives up what is in flight;
/// then the audio.
pub open spec fn passed<T>(
    w: WorkerView<T>,
    commands: Seq<Command>,
    swaps: Seq<StreamShape>,
    died: bool,
    audio: Seq<Seq<T>>,
) -> (WorkerView<T>, Seq<DeliveryView<T>>) {
    let (s1, f1) = commanded(w.state, commands);
    let (w2, f2, out) = swapped(WorkerView { state: s1, ..w }, f1, swaps);
    let (s3, f3) = if died {
        (abandoned(w2.state).0, f2 + listed(abandoned(w2.state).1))
    } else {
        (w2.state, f2)
    };
    let (s4, more) = heard(s3, audio);
    (WorkerView { state: s4, config: w2.config }, out + tagged(f3 + more, w2.config))
}

/// True when a stream of that shape can be assembled in memory.
pub open spec fn shape_fits(sample_rate: u32, channels: nat) -> bool {
    frames_in(MAX_UTTERANCE_MS as int, sample_rate as int) * at_least_one(channels) <= usize::MAX
}

/// The contents of a list of buffers.
pub open spec fn audio_view<T>(audio: Seq<Vec<T>>) -> Seq<Seq<T>> {
    audio.map_values(|b: Vec<T>| b@)
}

// ---------------------------------------------------------------------------
// Doing it
// ---------------------------------------------------------------------------

/// Puts an optional chunk at the end of a list.
fn push_opt<T>(out: &mut Vec<Chunk<T>>, c: Option<Chunk<T>>)
    ensures
        chunks_view(final(out)@) == chunks_view(old(out)@) + listed(opt_chunk(c)),
{
    let ghost before = out@;
    match c {
        Some(c) => {
            let ghost view = c@;
            out.push(c);
            proof {
                assert(chunks_view(out@) =~= chunks_view(before) + seq![view]);
            }
        },
        None => {
            proof {
                assert(chunks_view(before) + Seq::<ChunkView<T>>::empty() =~= chunks_view(before));
            }
        },
    }
}

/// Hands over all the finished chunks, under one configuration.
fn deliver_all<T>(finished: &mut Vec<Chunk<T>>, config: WorkerConfig, out: &mut Vec<Delivery<T>>)
    ensures
        final(finished)@.len() == 0,
        deliveries_view(final(out)@) == deliveries_view(old(out)@) + tagged(
            chunks_view(old(finished)@),
            config,
        ),
{
    let ghost all = chunks_view(finished@);
    let ghost start = deliveries_view(out@);
    let mut waiting: Vec<Chunk<T>> = Vec::new();
    std::mem::swap(&mut waiting, finished);
    // Taken from the back, so the list is turned round first.
    let mut reversed: Vec<Chunk<T>> = Vec::new();
    let ghost total = all.len();
    while waiting.len() > 0
        invariant
            total == all.len(),
            waiting@.len() + reversed@.len() == total,
            chunks_view(waiting@) == all.take(waiting@.len() as int),
            forall|i: int|
                0 <= i < reversed@.len() ==> (#[trigger] reversed@[i])@ == all[total - 1 - i],
        decreases waiting@.len(),
    {
        let ghost before = waiting@;
        if let Some(c) = waiting.pop() {
            proof {
                assert(chunks_view(before)[before.len() - 1] == c@);
                assert(chunks_view(waiting@) =~= all.take(waiting@.len() as int));
            }
            reversed.push(c);
        }
    }
    proof {
        assert(start + tagged(all, config).take(0) =~= start);
    }
    while reversed.len() > 0
        invariant
            total == all.len(),
            reversed@.len() <= total,
            forall|i: int|
                0 <= i < reversed@.len() ==> (#[trigger] reversed@[i])@ == all[total - 1 - i],
            deliveries_view(out@) == start + tagged(all, config).take(total - reversed@.len()),
        decreases reversed@.len(),
    {
        let ghost left = reversed@.len();
        let ghost before = out@;
        if let Some(c) = reversed.pop() {
            let ghost view = c@;
            proof {
                assert(view == all[total - left]);
            }
            out.push(Delivery { chunk: c, config });
            proof {
                let d = DeliveryView { chunk: view, config };
                assert(deliveries_view(out@) =~= deliveries_view(before).push(d));
                assert(tagged(all, config)[total - left] == d);
                assert(start + tagged(all, config).take(total - left + 1) =~= (start + tagged(
                    all,
                    config,
                ).take(total - left)).push(d));
            }
        }
    }
    proof {
        assert(tagged(all, config).take(total as int) =~= tagged(all, config));
    }
}

/// The length of the buffer one drain of the ring fills: a tenth of a second of
/// whole frames.
pub open spec fn scratch_size(sample_rate: u32, channels: nat) -> nat {
    let frames = sample_rate as nat / 10;
    (if frames == 0 {
        1nat
    } else {
        frames
    }) * channels
}

/// The length of the buffer one drain of the ring fills.
pub fn drain_scratch(config: WorkerConfig) -> (r: usize)
    requires
        scratch_size(config.sample_rate, config.channels as nat) <= usize::MAX,
    ensures
        r == scratch_size(config.sample_rate, config.channels as nat),
{
    let frames: usize = config.sample_rate as usize / 10;
    let frames: usize = if frames == 0 {
        1
    } else {
        frames
    };
    frames * config.channels
}

impl<T: Copy> CaptureWorker<T> {
    /// A worker for a stream of that shape.
    pub fn new(config: WorkerConfig) -> (r: CaptureWorker<T>)
        requires
            shape_fits(config.sample_rate, config.channels as nat),
        ensures
            r@ == worker_for::<T>(config),
            pre_roll_fits(r@.state),
    {
        CaptureWorker { state: CaptureState::new(config.sample_rate, config.channels), config }
    }

    fn run_commands(&mut self, commands: &Vec<Command>, finished: &mut Vec<Chunk<T>>)
        requires
            pre_roll_fits(old(self)@.state),
            old(finished)@.len() == 0,
        ensures
            final(self)@ == (WorkerView {
                state: commanded(old(self)@.state, commands@).0,
                ..old(self)@
            }),
            chunks_view(final(finished)@) == commanded(old(self)@.state, commands@).1,
            pre_roll_fits(final(self)@.state),
    {
        let ghost s0 = self@.state;
        let mut i: usize = 0;
        proof {
            assert(commands@.take(0) =~= Seq::<Command>::empty());
            assert(chunks_view(finished@) =~= Seq::<ChunkView<T>>::empty());
        }
        while i < commands.len()
            invariant
                i <= commands@.len(),
                pre_roll_fits(self@.state),
                self.config == old(self).config,
                s0 == old(self)@.state,
                self@.state == commanded(s0, commands@.take(i as int)).0,
                chunks_view(finished@) == commanded(s0, commands@.take(i as int)).1,
            decreases commands@.len() - i,
        {
            proof {
                assert(commands@.take(i + 1).drop_last() =~= commands@.take(i as int));
                assert(commands@.take(i + 1).last() == commands@[i as int]);
            }
            let closed = match commands[i] {
                Command::Begin => self.state.begin(),
                Command::End => self.state.end(),
            };
            push_opt(finished, closed);
            i = i + 1;
        }
        proof {
            assert(commands@.take(commands@.len() as int) =~= commands@);
        }
    }

    fn run_swaps(
        &mut self,
        swaps: &Vec<StreamShape>,
        finished: &mut Vec<Chunk<T>>,
        out: &mut Vec<Delivery<T>>,
    )
        requires
            pre_roll_fits(old(self)@.state),
            old(out)@.len() == 0,
            forall|i: int|
                0 <= i < swaps@.len() ==> shape_fits(
                    (#[trigger] swaps@[i]).sample_rate,
                    swaps@[i].channels as nat,
                ),
        ensures
            final(self)@ == swapped(old(self)@, chunks_view(old(finished)@), swaps@).0,
            chunks_view(final(finished)@) == swapped(
                old(self)@,
                chunks_view(old(finished)@),
                swaps@,
            ).1,
            deliveries_view(final(out)@) == swapped(
                old(self)@,
                chunks_view(old(finished)@),
                swaps@,
            ).2,
            pre_roll_fits(final(self)@.state),
    {
        let ghost w0 = self@;
        let ghost f0 = chunks_view(finished@);
        let mut i: usize = 0;
        proof {
            assert(swaps@.take(0) =~= Seq::<StreamShape>::empty());
            assert(deliveries_view(out@) =~= Seq::<DeliveryView<T>>::empty());
        }
        while i < swaps.len()
            invariant
                i <= swaps@.len(),
                w0 == old(self)@,
                f0 == chunks_view(old(finished)@),
                pre_roll_fits(self@.state),
                self@ == swapped(w0, f0, swaps@.take(i as int)).0,
                chunks_view(finished@) == swapped(w0, f0, swaps@.take(i as int)).1,
                deliveries_view(out@) == swapped(w0, f0, swaps@.take(i as int)).2,
                forall|i: int|
                    0 <= i < swaps@.len() ==> shape_fits(
                        (#[trigger] swaps@[i]).sample_rate,
                        swaps@[i].channels as nat,
                    ),
            decreases swaps@.len() - i,
        {
            proof {
                assert(swaps@.take(i + 1).drop_last() =~= swaps@.take(i as int));
                assert(swaps@.take(i + 1).last() == swaps@[i as int]);
            }
            let shape: StreamShape = swaps[i];
            let stranded = self.state.abandon();
            push_opt(finished, stranded);
            deliver_all(finished, self.config, out);
            let channels: usize = if shape.channels == 0 {
                1
            } else {
                shape.channels as usize
            };
            self.config = WorkerConfig {
                sample_rate: shape.sample_rate,
                channels,
                options: self.config.options,
            };
            self.state = CaptureState::new(shape.sample_rate, channels);
            proof {
                assert(chunks_view(finished@) =~= Seq::<ChunkView<T>>::empty());
            }
            i = i + 1;
        }
        proof {
            assert(swaps@.take(swaps@.len() as int) =~= swaps@);
        }
    }

    fn run_audio(&mut self, audio: &Vec<Vec<T>>, finished: &mut Vec<Chunk<T>>) -> (recording: Vec<
        bool,
    >)
        requires
            pre_roll_fits(old(self)@.state),
        ensures
            final(self)@ == (WorkerView {
                state: heard(old(self)@.state, audio_view(audio@)).0,
                ..old(self)@
            }),
            chunks_view(final(finished)@) == chunks_view(old(finished)@) + heard(
                old(self)@.state,
                audio_view(audio@),
            ).1,
            pre_roll_fits(final(self)@.state),
            recording@.len() == audio@.len(),
            forall|i: int|
                0 <= i < audio@.len() ==> (#[trigger] recording@[i]) == (heard(
                    old(self)@.state,
                    audio_view(audio@).take(i),
                ).0.phase == Phase::Recording),
    {
        let ghost s0 = self@.state;
        let ghost f0 = chunks_view(finished@);
        let ghost all = audio_view(audio@);
        let mut recording: Vec<bool> = Vec::new();
        let mut i: usize = 0;
        proof {
            assert(all.take(0) =~= Seq::<Seq<T>>::empty());
            assert(f0 + Seq::<ChunkView<T>>::empty() =~= f0);
        }
        while i < audio.len()
            invariant
                i <= audio@.len(),
                all == audio_view(audio@),
                s0 == old(self)@.state,
                f0 == chunks_view(old(finished)@),
                pre_roll_fits(self@.state),
                self.config == old(self).config,
                self@.state == heard(s0, all.take(i as int)).0,
                chunks_view(finished@) == f0 + heard(s0, all.take(i as int)).1,
                recording@.len() == i,
                forall|j: int|
                    0 <= j < i ==> (#[trigger] recording@[j]) == (heard(s0, all.take(j)).0.phase
                        == Phase::Recording),
            decreases audio@.len() - i,
        {
            proof {
                assert(all.take(i + 1).drop_last() =~= all.take(i as int));
                assert(all.take(i + 1).last() == audio@[i as int]@);
            }
            recording.push(self.state.is_recording());
            let ghost before = self@.state;
            self.state.push(&audio[i], finished);
            proof {
                let out = heard(s0, all.take(i as int)).1;
                let more = pushed(before, audio@[i as int]@).1;
                assert((f0 + out) + more =~= f0 + (out + more));
            }
            i = i + 1;
        }
        proof {
            assert(all.take(audio@.len() as int) =~= all);
        }
        recording
    }

    /// One pass of the worker.
    ///
    /// `commands`, `swaps` and `died` are what arrived since the last pass, and
    /// `audio` is what the ring held after that, in whole frames.
    pub fn pass(
        &mut self,
        commands: &Vec<Command>,
        swaps: &Vec<StreamShape>,
        died: bool,
        audio: &Vec<Vec<T>>,
    ) -> (r: PassOutput<T>)
        requires
            pre_roll_fits(old(self)@.state),
            forall|i: int|
                0 <= i < swaps@.len() ==> shape_fits(
                    (#[trigger] swaps@[i]).sample_rate,
                    swaps@[i].channels as nat,
                ),
        ensures
            final(self)@ == passed(old(self)@, commands@, swaps@, died, audio_view(audio@)).0,
            deliveries_view(r.deliveries@) == passed(
                old(self)@,
                commands@,
                swaps@,
                died,
                audio_view(audio@),
            ).1,
            r.recording@.len() == audio@.len(),
            forall|i: int|
                0 <= i < audio@.len() ==> (#[trigger] r.recording@[i]) == (heard(
                    met_by_audio(old(self)@, commands@, swaps@, died),
                    audio_view(audio@).take(i),
                ).0.phase == Phase::Recording),
            pre_roll_fits(final(self)@.state),
    {
        let mut finished: Vec<Chunk<T>> = Vec::new();
        let mut out: Vec<Delivery<T>> = Vec::new();
        self.run_commands(commands, &mut finished);
        self.run_swaps(swaps, &mut finished, &mut out);
        if died {
            let stranded = self.state.abandon();
            push_opt(&mut finished, stranded);
        }
        let recording = self.run_audio(audio, &mut finished);
        deliver_all(&mut finished, self.config, &mut out);
        PassOutput { deliveries: out, recording }
    }
}

/// Whether dropped samples are worth a line in the log: there are new ones, and
/// the last line is long enough ago.
pub fn overrun_report_due(overruns: u64, reported: u64, since_last_ms: u64) -> (r: bool)
    ensures
        r == (overruns > reported && since_last_ms >= OVERRUN_LOG_INTERVAL_MS),
{
    overruns > reported && since_last_ms >= OVERRUN_LOG_INTERVAL_MS
}

/// How often dropped samples are worth a line in the log, in milliseconds.
pub const OVERRUN_LOG_INTERVAL_MS: u64 = 5000;

// ---------------------------------------------------------------------------
// Laws
// ---------------------------------------------------------------------------

/// A change of device drops nothing: what was being recorded is handed over, as
/// it was captured.
pub proof fn a_swap_hands_over_what_was_recorded<T>(
    w: WorkerView<T>,
    finished: Seq<ChunkView<T>>,
    shape: StreamShape,
)
    ensures
        ({
            let (after, waiting, out) = swapped(w, finished, seq![shape]);
            &&& waiting.len() == 0
            &&& out == tagged(finished + listed(abandoned(w.state).1), w.config)
            &&& after.config.options == w.config.options
            &&& w.state.phase != Phase::Idle && w.state.utterance.len() > 0 ==> out.last().chunk.raw
                == w.state.utterance && out.last().config == w.config
        }),
{
    assert(seq![shape].drop_last() =~= Seq::<StreamShape>::empty());
    assert(seq![shape].last() == shape);
    let (mid, waiting, none) = swapped(w, finished, Seq::<StreamShape>::empty());
    assert(mid == w && waiting == finished && none =~= Seq::<DeliveryView<T>>::empty());
    let stranded = finished + listed(abandoned(w.state).1);
    assert(none + tagged(stranded, w.config) =~= tagged(stranded, w.config));
    if w.state.phase != Phase::Idle && w.state.utterance.len() > 0 {
        assert(stranded.last() == abandoned(w.state).1.unwrap());
        assert(tagged(stranded, w.config).last() == (DeliveryView {
            chunk: stranded.last(),
            config: w.config,
        }));
    }
}

/// A press is in effect before the audio of the same pass: from idle, the
/// recording then holds the pre-roll and that audio.
pub proof fn a_press_comes_before_the_audio_behind_it<T>(w: WorkerView<T>, buffer: Seq<T>)
    requires
        w.state.phase == Phase::Idle,
        w.state.utterance_cap == 0 || w.state.pre_roll.len() + buffer.len() <= w.state.utterance_cap,
    ensures
        ({
            let (after, out) = passed(w, seq![Command::Begin], Seq::empty(), false, seq![buffer]);
            &&& out.len() == 0
            &&& after.state.phase == Phase::Recording
            &&& after.state.utterance == w.state.pre_roll + buffer
        }),
{
    let commands = seq![Command::Begin];
    assert(commands.drop_last() =~= Seq::<Command>::empty());
    assert(commands.last() == Command::Begin);
    assert(commanded(w.state, Seq::<Command>::empty()).0 == w.state);
    let audio = seq![buffer];
    assert(audio.drop_last() =~= Seq::<Seq<T>>::empty());
    assert(audio.last() == buffer);
    let s1 = begun(w.state).0;
    assert(heard(s1, Seq::<Seq<T>>::empty()).0 == s1);
    assert(pushed(s1, buffer).1 =~= Seq::<ChunkView<T>>::empty());
}

} // verus!
