//! The sequencer: building generator graphs from a configuration, and the
//! per-tick state machine that applies commands and decides which notes sound.
use vstd::prelude::*;
use std::collections::VecDeque;
use crate::module::{
    max_of, min_of, ClockDivider, PitchAdder, PitchGenerator, PitchGeneratorType, PitchModule,
    PitchQuantizer, RampPitchGenerator, RandomPitchGenerator, RandomTriggerGenerator,
    SquarePitchGenerator, Trigger, TriggerModule,
};
use crate::pitch::{Letter, LetterOctave, STEP_MAX, STEP_MIN};

verus! {

/// Clock ticks per quarter note: the MIDI clock's resolution.
pub const TICKS_PER_QUARTER_NOTE: u32 = 24;

/// Status byte of a MIDI note-on event on channel 1.
pub const NOTE_ON_MSG: u8 = 0x90;

/// Status byte of a MIDI note-off event on channel 1.
pub const NOTE_OFF_MSG: u8 = 0x80;

/// Velocity of every note played.
pub const VELOCITY: u8 = 0x64;

/// The pitch graph that a configuration describes: melody plus transposition,
/// quantized to a scale.
pub type PitchGraph = PitchQuantizer<PitchAdder<PitchGenerator, PitchGenerator>>;

/// The trigger graph that a configuration describes: random gates, divided.
pub type TriggerGraph = ClockDivider<RandomTriggerGenerator>;

/// A snapshot of the sequencer's settings.
pub struct SequencerConfiguration {
    pub melody_min_pitch: LetterOctave,
    pub melody_max_pitch: LetterOctave,
    pub melody_pitch_generator_type: PitchGeneratorType,
    pub melody_cycle_length: u32,
    pub transposition_min_pitch: LetterOctave,
    pub transposition_max_pitch: LetterOctave,
    pub transposition_pitch_generator_type: PitchGeneratorType,
    pub transposition_cycle_length: u32,
    /// The chance of a gate is `trigger_probability_numerator / trigger_probability_denominator`.
    pub trigger_probability_numerator: u32,
    pub trigger_probability_denominator: u32,
    pub clock_divider_factor: u32,
    pub quantizer_scale: Vec<Letter>,
    pub bpm: u32,
}

/// Why a configuration cannot be built into a graph.
#[derive(Clone, Copy, PartialEq, Eq, Structural, Debug)]
pub enum ConfigError {
    /// The quantizer's scale has no letter.
    EmptyScale,
    /// A pitch generator's cycle length is 0.
    ZeroCycleLength,
    /// A random pitch generator's minimum lies above its maximum.
    InvertedRange,
    /// Melody plus transposition, quantized, can leave the pitches that a
    /// `LetterOctave` can hold.
    PitchOutOfRange,
    /// The trigger probability's denominator is 0 or below its numerator.
    InvalidProbability,
    /// The clock divider's factor is 0.
    ZeroFactor,
}

/// Whether `g` is a fresh generator of the given kind, cycle length and range.
pub open spec fn generator_matches(
    g: PitchGenerator,
    kind: PitchGeneratorType,
    cycle_length: u32,
    min: LetterOctave,
    max: LetterOctave,
) -> bool {
    match kind {
        PitchGeneratorType::Random => g is Random && g->Random_0.min == min.semitones()
            && g->Random_0.max == max.semitones(),
        PitchGeneratorType::RampUp => g == PitchGenerator::Ramp(
            RampPitchGenerator {
                cycle_length,
                min: min.semitones() as i64,
                max: max.semitones() as i64,
                counter: 0,
            },
        ),
        PitchGeneratorType::Square => g == PitchGenerator::Square(
            SquarePitchGenerator {
                cycle_length,
                min: min.semitones() as i64,
                max: max.semitones() as i64,
                counter: 0,
            },
        ),
    }
}

/// Lowest step of a generator between `min` and `max`.
pub open spec fn range_low(min: LetterOctave, max: LetterOctave) -> int {
    min_of(min.semitones(), max.semitones())
}

/// Highest step of a generator between `min` and `max`.
pub open spec fn range_high(min: LetterOctave, max: LetterOctave) -> int {
    max_of(min.semitones(), max.semitones())
}

impl SequencerConfiguration {
    /// What is wrong with the pitch part of the configuration, if anything;
    /// the first of the checks that fails.
    pub open spec fn pitch_error(&self) -> Option<ConfigError> {
        if self.quantizer_scale.len() == 0 {
            Some(ConfigError::EmptyScale)
        } else if self.melody_cycle_length == 0 || self.transposition_cycle_length == 0 {
            Some(ConfigError::ZeroCycleLength)
        } else if (self.melody_pitch_generator_type == PitchGeneratorType::Random
            && self.melody_min_pitch.semitones() > self.melody_max_pitch.semitones()) || (
        self.transposition_pitch_generator_type == PitchGeneratorType::Random
            && self.transposition_min_pitch.semitones()
            > self.transposition_max_pitch.semitones()) {
            Some(ConfigError::InvertedRange)
        } else if range_low(self.melody_min_pitch, self.melody_max_pitch) + range_low(
            self.transposition_min_pitch,
            self.transposition_max_pitch,
        ) < STEP_MIN || range_high(self.melody_min_pitch, self.melody_max_pitch) + range_high(
            self.transposition_min_pitch,
            self.transposition_max_pitch,
        ) + 11 > STEP_MAX {
            Some(ConfigError::PitchOutOfRange)
        } else {
            None
        }
    }

    /// Whether `g` is the pitch graph that the configuration describes.
    pub open spec fn pitch_graph_matches(&self, g: PitchGraph) -> bool {
        &&& g.enabled_notes@ == self.quantizer_scale@
        &&& generator_matches(
            g.input.left,
            self.melody_pitch_generator_type,
            self.melody_cycle_length,
            self.melody_min_pitch,
            self.melody_max_pitch,
        )
        &&& generator_matches(
            g.input.right,
            self.transposition_pitch_generator_type,
            self.transposition_cycle_length,
            self.transposition_min_pitch,
            self.transposition_max_pitch,
        )
    }

    /// What is wrong with the trigger part of the configuration, if anything.
    pub open spec fn trigger_error(&self) -> Option<ConfigError> {
        if self.trigger_probability_denominator == 0 || self.trigger_probability_numerator
            > self.trigger_probability_denominator {
            Some(ConfigError::InvalidProbability)
        } else if self.clock_divider_factor == 0 {
            Some(ConfigError::ZeroFactor)
        } else {
            None
        }
    }

    /// Whether `g` is the trigger graph that the configuration describes.
    pub open spec fn trigger_graph_matches(&self, g: TriggerGraph) -> bool {
        &&& g.factor == self.clock_divider_factor
        &&& g.counter == 0
        &&& g.input.numerator == self.trigger_probability_numerator
        &&& g.input.denominator == self.trigger_probability_denominator
    }
}

fn build_generator(
    kind: PitchGeneratorType,
    cycle_length: u32,
    min: LetterOctave,
    max: LetterOctave,
) -> (r: PitchGenerator)
    requires
        cycle_length >= 1,
        kind == PitchGeneratorType::Random ==> min.semitones() <= max.semitones(),
    ensures
        r.wf(),
        generator_matches(r, kind, cycle_length, min, max),
        r.lowest() == range_low(min, max),
        r.highest() == range_high(min, max),
{
    match kind {
        PitchGeneratorType::Random => PitchGenerator::Random(RandomPitchGenerator::new(min, max)),
        PitchGeneratorType::RampUp => PitchGenerator::Ramp(
            RampPitchGenerator::new(cycle_length, min, max),
        ),
        PitchGeneratorType::Square => PitchGenerator::Square(
            SquarePitchGenerator::new(cycle_length, min, max),
        ),
    }
}

/// Builds the pitch graph that the configuration describes:
/// `Quantizer(Adder(melody, transposition), scale)`, or says what is wrong
/// with the configuration.
pub fn build_pitch_generator(config: &SequencerConfiguration) -> (r: Result<PitchGraph, ConfigError>)
    ensures
        match r {
            Ok(g) => config.pitch_error() is None && g.wf() && config.pitch_graph_matches(g),
            Err(e) => config.pitch_error() == Some(e),
        },
{
    if config.quantizer_scale.len() == 0 {
        return Err(ConfigError::EmptyScale);
    }
    if config.melody_cycle_length == 0 || config.transposition_cycle_length == 0 {
        return Err(ConfigError::ZeroCycleLength);
    }
    let m_min = config.melody_min_pitch.step();
    let m_max = config.melody_max_pitch.step();
    let t_min = config.transposition_min_pitch.step();
    let t_max = config.transposition_max_pitch.step();
    if (config.melody_pitch_generator_type == PitchGeneratorType::Random && m_min > m_max) || (
    config.transposition_pitch_generator_type == PitchGeneratorType::Random && t_min > t_max) {
        return Err(ConfigError::InvertedRange);
    }
    let low = (if m_min <= m_max { m_min } else { m_max }) + (if t_min <= t_max { t_min } else { t_max });
    let high = (if m_min <= m_max { m_max } else { m_min }) + (if t_min <= t_max { t_max } else { t_min });
    if low < STEP_MIN || high + 11 > STEP_MAX {
        return Err(ConfigError::PitchOutOfRange);
    }
    let melody = build_generator(
        config.melody_pitch_generator_type,
        config.melody_cycle_length,
        config.melody_min_pitch,
        config.melody_max_pitch,
    );
    let transposition = build_generator(
        config.transposition_pitch_generator_type,
        config.transposition_cycle_length,
        config.transposition_min_pitch,
        config.transposition_max_pitch,
    );
    let scale = config.quantizer_scale.clone();
    proof {
        assert(scale@ =~= config.quantizer_scale@);
    }
    Ok(PitchQuantizer::new(PitchAdder::new(melody, transposition), scale))
}

/// Builds the trigger graph that the configuration describes:
/// `ClockDivider(RandomTrigger(probability), factor)`, or says what is wrong
/// with the configuration.
pub fn build_trigger_generator(config: &SequencerConfiguration) -> (r: Result<TriggerGraph, ConfigError>)
    ensures
        match r {
            Ok(g) => config.trigger_error() is None && g.wf() && config.trigger_graph_matches(g),
            Err(e) => config.trigger_error() == Some(e),
        },
{
    if config.trigger_probability_denominator == 0 || config.trigger_probability_numerator
        > config.trigger_probability_denominator {
        return Err(ConfigError::InvalidProbability);
    }
    if config.clock_divider_factor == 0 {
        return Err(ConfigError::ZeroFactor);
    }
    let input = RandomTriggerGenerator::new(
        config.trigger_probability_numerator,
        config.trigger_probability_denominator,
    );
    Ok(ClockDivider::new(input, config.clock_divider_factor))
}

/// The clock period in milliseconds at `bpm` beats per minute, 24 ticks to
/// the beat, rounded down.
pub fn clock_period_ms(bpm: u32) -> (r: u64)
    requires
        bpm >= 1,
    ensures
        r as int == 60000int / (TICKS_PER_QUARTER_NOTE as int * bpm as int),
{
    60000 / (TICKS_PER_QUARTER_NOTE as u64 * bpm as u64)
}

/// The MIDI note number of a step: the step itself, held to `0..=127`.
pub open spec fn midi_note_spec(s: int) -> int {
    if s < 0 {
        0
    } else if s > 127 {
        127
    } else {
        s
    }
}

/// The MIDI note number of a pitch.
pub fn midi_note(pitch: LetterOctave) -> (r: u8)
    ensures
        r as int == midi_note_spec(pitch.semitones()),
        r <= 127,
{
    let s = pitch.step();
    if s < 0 {
        0
    } else if s > 127 {
        127
    } else {
        s as u8
    }
}

/// The three bytes of a note-on event.
pub fn note_on_message(note: u8) -> (r: [u8; 3])
    ensures
        r@ == seq![NOTE_ON_MSG, note, VELOCITY],
{
    let r = [NOTE_ON_MSG, note, VELOCITY];
    proof {
        assert(r@ =~= seq![NOTE_ON_MSG, note, VELOCITY]);
    }
    r
}

/// The three bytes of a note-off event.
pub fn note_off_message(note: u8) -> (r: [u8; 3])
    ensures
        r@ == seq![NOTE_OFF_MSG, note, VELOCITY],
{
    let r = [NOTE_OFF_MSG, note, VELOCITY];
    proof {
        assert(r@ =~= seq![NOTE_OFF_MSG, note, VELOCITY]);
    }
    r
}

/// A command to the running sequencer.
pub enum SequencerCommand<P, T> {
    Start,
    Stop,
    SetPitchGenerator(P),
    SetTriggerGenerator(T),
}

impl<P: PitchModule, T: TriggerModule> SequencerCommand<P, T> {
    /// Whether a graph that the command carries is consistent.
    pub open spec fn wf(&self) -> bool {
        match self {
            SequencerCommand::SetPitchGenerator(g) => g.wf(),
            SequencerCommand::SetTriggerGenerator(g) => g.wf(),
            _ => true,
        }
    }
}

/// What the sequencer owns while it runs: the two graphs and the play state.
pub struct SequencerState<P: PitchModule, T: TriggerModule> {
    pub pitch_generator: P,
    pub trigger_generator: T,
    pub is_playing: bool,
}

impl<P: PitchModule, T: TriggerModule> SequencerState<P, T> {
    pub open spec fn wf(&self) -> bool {
        self.pitch_generator.wf() && self.trigger_generator.wf()
    }

    /// The state after one command.
    pub open spec fn applied(self, command: SequencerCommand<P, T>) -> Self {
        match command {
            SequencerCommand::Start => SequencerState { is_playing: true, ..self },
            SequencerCommand::Stop => SequencerState { is_playing: false, ..self },
            SequencerCommand::SetPitchGenerator(g) => SequencerState { pitch_generator: g, ..self },
            SequencerCommand::SetTriggerGenerator(g) => SequencerState {
                trigger_generator: g,
                ..self
            },
        }
    }

    /// The state after the commands, applied in order.
    pub open spec fn applied_all(self, commands: Seq<SequencerCommand<P, T>>) -> Self
        decreases commands.len(),
    {
        if commands.len() == 0 {
            self
        } else {
            self.applied_all(commands.drop_last()).applied(commands.last())
        }
    }

    /// Whether one tick of play can take `self` to `next` and emit `note`.
    /// When stopped, no graph moves and no note sounds. When playing, each graph
    /// ticks exactly once, and the pitch's note sounds on an `On` trigger.
    pub open spec fn played(self, next: Self, note: Option<u8>) -> bool {
        if self.is_playing {
            &&& next.is_playing
            &&& exists|p: LetterOctave, t: Trigger|
                #![trigger self.pitch_generator.ticked(next.pitch_generator, p), self.trigger_generator.ticked(next.trigger_generator, t)]
                self.pitch_generator.ticked(next.pitch_generator, p)
                    && self.trigger_generator.ticked(next.trigger_generator, t)
                    && note == (if t == Trigger::On {
                        Some(midi_note_spec(p.semitones()) as u8)
                    } else {
                        None
                    })
        } else {
            next == self && note is None
        }
    }

    pub fn new(pitch_generator: P, trigger_generator: T, is_playing: bool) -> (r: Self)
        requires
            pitch_generator.wf(),
            trigger_generator.wf(),
        ensures
            r.wf(),
            r == (SequencerState { pitch_generator, trigger_generator, is_playing }),
    {
        SequencerState { pitch_generator, trigger_generator, is_playing }
    }

    /// Applies one command.
    pub fn apply_command(&mut self, command: SequencerCommand<P, T>)
        requires
            old(self).wf(),
            command.wf(),
        ensures
            final(self).wf(),
            *final(self) == old(self).applied(command),
    {
        match command {
            SequencerCommand::Start => {
                if !self.is_playing {
                    self.is_playing = true;
                }
            },
            SequencerCommand::Stop => {
                if self.is_playing {
                    self.is_playing = false;
                }
            },
            SequencerCommand::SetPitchGenerator(g) => {
                self.pitch_generator = g;
            },
            SequencerCommand::SetTriggerGenerator(g) => {
                self.trigger_generator = g;
            },
        }
    }

    /// Applies every queued command, oldest first, and empties the queue.
    pub fn apply_commands(&mut self, commands: &mut VecDeque<SequencerCommand<P, T>>)
        requires
            old(self).wf(),
            forall|i: int| 0 <= i < old(commands)@.len() ==> (#[trigger] old(commands)@[i]).wf(),
        ensures
            final(self).wf(),
            *final(self) == old(self).applied_all(old(commands)@),
            final(commands)@.len() == 0,
    {
        let ghost start = *self;
        let ghost all = commands@;
        let ghost mut k: int = 0;
        while commands.len() > 0
            invariant
                self.wf(),
                0 <= k <= all.len(),
                commands@ == all.subrange(k, all.len() as int),
                *self == start.applied_all(all.subrange(0, k)),
                forall|i: int| 0 <= i < all.len() ==> (#[trigger] all[i]).wf(),
            decreases commands@.len(),
        {
            let command = commands.pop_front();
            match command {
                Some(c) => {
                    proof {
                        assert(c == all[k]);
                        assert(all.subrange(0, k + 1).drop_last() =~= all.subrange(0, k));
                    }
                    self.apply_command(c);
                    proof {
                        k = k + 1;
                    }
                },
                None => {},
            }
        }
        proof {
            assert(all.subrange(0, k) =~= all);
        }
    }

    /// Advances the graphs by one tick if playing, and returns the note to
    /// sound, if any.
    pub fn play(&mut self) -> (r: Option<u8>)
        requires
            old(self).wf(),
        ensures
            final(self).wf(),
            old(self).played(*final(self), r),
    {
        let ghost before = *self;
        if self.is_playing {
            let pitch = self.pitch_generator.tick();
            let trigger = self.trigger_generator.tick();
            let r = match trigger {
                Trigger::On => Some(midi_note(pitch)),
                Trigger::Off => None,
            };
            proof {
                assert(before.pitch_generator.ticked(self.pitch_generator, pitch));
                assert(before.trigger_generator.ticked(self.trigger_generator, trigger));
            }
            r
        } else {
            None
        }
    }

    /// One clock tick: applies every queued command in order, then plays.
    pub fn tick(&mut self, commands: &mut VecDeque<SequencerCommand<P, T>>) -> (r: Option<u8>)
        requires
            old(self).wf(),
            forall|i: int| 0 <= i < old(commands)@.len() ==> (#[trigger] old(commands)@[i]).wf(),
        ensures
            final(self).wf(),
            final(commands)@.len() == 0,
            old(self).applied_all(old(commands)@).played(*final(self), r),
    {
        self.apply_commands(commands);
        self.play()
    }
}

/// Commands are applied in the order they were sent, none lost and none
/// repeated: applying one batch and then the next is applying the two in
/// sequence.
pub proof fn commands_apply_in_send_order<P: PitchModule, T: TriggerModule>(
    state: SequencerState<P, T>,
    first: Seq<SequencerCommand<P, T>>,
    second: Seq<SequencerCommand<P, T>>,
)
    ensures
        state.applied_all(first + second) == state.applied_all(first).applied_all(second),
    decreases second.len(),
{
    if second.len() == 0 {
        assert(first + second =~= first);
    } else {
        commands_apply_in_send_order(state, first, second.drop_last());
        assert((first + second).drop_last() =~= first + second.drop_last());
    }
}

} // verus!
