use std::collections::VecDeque;

use adc21::module::{
    ClockDivider, PitchGeneratorType, PitchModule, RampPitchGenerator, RandomTriggerGenerator, Trigger,
    TriggerModule,
};
use adc21::pitch::{Letter, LetterOctave};
use adc21::sequencer::{
    build_pitch_generator, build_trigger_generator, clock_period_ms, midi_note, note_off_message,
    note_on_message, ConfigError, SequencerCommand, SequencerConfiguration, SequencerState,
};

fn configuration() -> SequencerConfiguration {
    SequencerConfiguration {
        melody_min_pitch: LetterOctave(Letter::C, 1),
        melody_max_pitch: LetterOctave(Letter::C, 2),
        melody_pitch_generator_type: PitchGeneratorType::RampUp,
        melody_cycle_length: 4,
        transposition_min_pitch: LetterOctave::from_step(0),
        transposition_max_pitch: LetterOctave::from_step(0),
        transposition_pitch_generator_type: PitchGeneratorType::Square,
        transposition_cycle_length: 2,
        trigger_probability_numerator: 1,
        trigger_probability_denominator: 1,
        clock_divider_factor: 1,
        quantizer_scale: vec![
            Letter::C,
            Letter::Csh,
            Letter::D,
            Letter::Dsh,
            Letter::E,
            Letter::F,
            Letter::Fsh,
            Letter::G,
            Letter::Gsh,
            Letter::A,
            Letter::Ash,
            Letter::B,
        ],
        bpm: 120,
    }
}

fn ramp(min: i64, max: i64) -> RampPitchGenerator {
    RampPitchGenerator::new(2, LetterOctave::from_step(min), LetterOctave::from_step(max))
}

fn always_on() -> ClockDivider<RandomTriggerGenerator> {
    ClockDivider::new(RandomTriggerGenerator::new(1, 1), 1)
}

#[test]
fn built_pitch_graph_plays_the_melody_ramp() {
    let mut graph = build_pitch_generator(&configuration()).ok().unwrap();
    let out: Vec<LetterOctave> = (0..8).map(|_| graph.tick()).collect();
    assert_eq!(
        out,
        vec![
            LetterOctave(Letter::C, 1),
            LetterOctave(Letter::E, 1),
            LetterOctave(Letter::Gsh, 1),
            LetterOctave(Letter::C, 2),
            LetterOctave(Letter::C, 1),
            LetterOctave(Letter::E, 1),
            LetterOctave(Letter::Gsh, 1),
            LetterOctave(Letter::C, 2)
        ]
    );
}

#[test]
fn built_pitch_graph_adds_transposition_and_quantizes() {
    let mut config = configuration();
    config.transposition_max_pitch = LetterOctave::from_step(1);
    config.quantizer_scale = vec![Letter::C, Letter::E, Letter::Gsh];
    let mut graph = build_pitch_generator(&config).ok().unwrap();
    // melody 24, 28, 32, 36; transposition 0, 1, 0, 1
    let out: Vec<i64> = (0..4).map(|_| graph.tick().step()).collect();
    assert_eq!(out, vec![24, 32, 32, 40]);
}

#[test]
fn pitch_builder_rejects_each_malformed_configuration() {
    let mut c = configuration();
    c.quantizer_scale = Vec::new();
    assert!(matches!(build_pitch_generator(&c), Err(ConfigError::EmptyScale)));

    let mut c = configuration();
    c.transposition_cycle_length = 0;
    assert!(matches!(build_pitch_generator(&c), Err(ConfigError::ZeroCycleLength)));

    let mut c = configuration();
    c.melody_pitch_generator_type = PitchGeneratorType::Random;
    c.melody_min_pitch = LetterOctave(Letter::C, 3);
    c.melody_max_pitch = LetterOctave(Letter::C, 2);
    assert!(matches!(build_pitch_generator(&c), Err(ConfigError::InvertedRange)));

    let mut c = configuration();
    c.melody_max_pitch = LetterOctave(Letter::B, i32::MAX);
    assert!(matches!(build_pitch_generator(&c), Err(ConfigError::PitchOutOfRange)));

    let mut c = configuration();
    c.melody_min_pitch = LetterOctave(Letter::C, i32::MIN);
    c.transposition_min_pitch = LetterOctave(Letter::C, -2);
    assert!(matches!(build_pitch_generator(&c), Err(ConfigError::PitchOutOfRange)));
}

#[test]
fn ramp_may_fall_but_random_range_may_not_invert() {
    let mut c = configuration();
    c.melody_min_pitch = LetterOctave(Letter::C, 3);
    c.melody_max_pitch = LetterOctave(Letter::C, 2);
    assert!(build_pitch_generator(&c).is_ok());
}

#[test]
fn trigger_builder_rejects_each_malformed_configuration() {
    let mut c = configuration();
    c.trigger_probability_denominator = 0;
    assert!(matches!(build_trigger_generator(&c), Err(ConfigError::InvalidProbability)));

    let mut c = configuration();
    c.trigger_probability_numerator = 3;
    c.trigger_probability_denominator = 2;
    assert!(matches!(build_trigger_generator(&c), Err(ConfigError::InvalidProbability)));

    let mut c = configuration();
    c.clock_divider_factor = 0;
    assert!(matches!(build_trigger_generator(&c), Err(ConfigError::ZeroFactor)));
}

#[test]
fn built_trigger_graph_divides_the_clock() {
    let mut c = configuration();
    c.clock_divider_factor = 3;
    let mut graph = build_trigger_generator(&c).ok().unwrap();
    let out: Vec<Trigger> = (0..6).map(|_| graph.tick()).collect();
    assert_eq!(out, vec![Trigger::On, Trigger::Off, Trigger::Off, Trigger::On, Trigger::Off, Trigger::Off]);
}

#[test]
fn clock_period_at_common_tempos() {
    assert_eq!(clock_period_ms(120), 20);
    assert_eq!(clock_period_ms(60), 41);
    assert_eq!(clock_period_ms(1), 2500);
}

#[test]
fn midi_note_is_the_step_held_to_midi_range() {
    assert_eq!(midi_note(LetterOctave(Letter::C, 4)), 60);
    assert_eq!(midi_note(LetterOctave(Letter::B, -2)), 0);
    assert_eq!(midi_note(LetterOctave(Letter::C, 10)), 127);
    assert_eq!(note_on_message(60), [0x90, 60, 0x64]);
    assert_eq!(note_off_message(61), [0x80, 61, 0x64]);
}

#[test]
fn stopped_sequencer_neither_advances_nor_sounds() {
    let mut state = SequencerState::new(ramp(60, 62), always_on(), false);
    let mut queue = VecDeque::new();
    assert_eq!(state.tick(&mut queue), None);
    assert_eq!(state.tick(&mut queue), None);
    queue.push_back(SequencerCommand::Start);
    assert_eq!(state.tick(&mut queue), Some(60));
    assert_eq!(state.tick(&mut queue), Some(62));
}

#[test]
fn commands_are_applied_in_send_order() {
    let mut state = SequencerState::new(ramp(60, 62), always_on(), true);
    let mut queue = VecDeque::new();
    queue.push_back(SequencerCommand::Stop);
    queue.push_back(SequencerCommand::Start);
    queue.push_back(SequencerCommand::SetPitchGenerator(ramp(40, 40)));
    queue.push_back(SequencerCommand::SetPitchGenerator(ramp(50, 50)));
    assert_eq!(state.tick(&mut queue), Some(50));
    assert!(queue.is_empty());

    queue.push_back(SequencerCommand::Start);
    queue.push_back(SequencerCommand::Stop);
    assert_eq!(state.tick(&mut queue), None);
    assert!(!state.is_playing);
}

#[test]
fn graph_replacement_applies_while_stopped() {
    let mut state = SequencerState::new(ramp(60, 62), always_on(), false);
    let mut queue = VecDeque::new();
    queue.push_back(SequencerCommand::SetPitchGenerator(ramp(70, 70)));
    queue.push_back(SequencerCommand::SetTriggerGenerator(ClockDivider::new(RandomTriggerGenerator::new(0, 1), 1)));
    assert_eq!(state.tick(&mut queue), None);
    queue.push_back(SequencerCommand::Start);
    assert_eq!(state.tick(&mut queue), None);
    queue.push_back(SequencerCommand::SetTriggerGenerator(always_on()));
    assert_eq!(state.tick(&mut queue), Some(70));
}

#[test]
fn start_and_stop_are_idempotent() {
    let mut state = SequencerState::new(ramp(60, 60), always_on(), true);
    state.apply_command(SequencerCommand::Start);
    assert!(state.is_playing);
    state.apply_command(SequencerCommand::Stop);
    state.apply_command(SequencerCommand::Stop);
    assert!(!state.is_playing);
    assert_eq!(state.play(), None);
}
