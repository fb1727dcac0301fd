use adc21::module::{
    quantize, ClockDivider, PitchAdder, PitchGeneratorType, PitchModule, PitchQuantizer,
    RampPitchGenerator, RandomPitchGenerator, RandomTriggerGenerator, SquarePitchGenerator,
    Trigger, TriggerModule,
};
use adc21::pitch::{format_letter_octave, Letter, LetterOctave};

#[test]
fn square_pitch_generator_returns_symmetrical_output_when_length_is_even() {
    let length = 4;
    let min = LetterOctave::from_step(0);
    let max = LetterOctave::from_step(10);
    let mut generator = SquarePitchGenerator::new(length, min, max);

    let mut actual: Vec<LetterOctave> = Vec::new();
    for _ in 0..length * 2 {
        actual.push(generator.tick());
    }

    assert_eq!(actual, vec![min, min, max, max, min, min, max, max]);
}

#[test]
fn square_pitch_generator_returns_asymmetrical_output_when_length_is_odd() {
    let length = 3;
    let min = LetterOctave(Letter::C, 1);
    let max = LetterOctave(Letter::C, 2);
    let mut generator = SquarePitchGenerator::new(length, min, max);

    let mut actual: Vec<LetterOctave> = Vec::new();
    for _ in 0..length * 2 {
        actual.push(generator.tick());
    }

    assert_eq!(actual, vec![min, max, max, min, max, max]);
}

#[test]
fn ramp_generator_returns_stepped_output_including_min_max_values() {
    let length = 4;
    let min = LetterOctave(Letter::C, 1);
    let max = LetterOctave(Letter::C, 2);
    let mut generator = RampPitchGenerator::new(length, min, max);

    let mut actual: Vec<LetterOctave> = Vec::new();
    for _ in 0..length * 2 {
        actual.push(generator.tick());
    }

    assert_eq!(
        actual,
        vec![
            LetterOctave(Letter::C, 1),
            LetterOctave(Letter::E, 1),
            LetterOctave(Letter::Gsh, 1),
            LetterOctave(Letter::C, 2),
            LetterOctave(Letter::C, 1),
            LetterOctave(Letter::E, 1),
            LetterOctave(Letter::Gsh, 1),
            LetterOctave(Letter::C, 2)
        ]
    );
}

#[test]
fn ramp_starts_at_min_and_ends_at_max_each_cycle() {
    let min = LetterOctave(Letter::C, 3);
    let max = LetterOctave(Letter::G, 3);
    let mut generator = RampPitchGenerator::new(5, min, max);
    let steps: Vec<i64> = (0..15).map(|_| generator.tick().step()).collect();
    assert_eq!(steps, vec![48, 50, 52, 53, 55, 48, 50, 52, 53, 55, 48, 50, 52, 53, 55]);
}

#[test]
fn ramp_rounds_to_nearest_step() {
    // 0, 1/3, 2/3, 1 of a whole tone: 0, 0.67, 1.33, 2
    let mut generator = RampPitchGenerator::new(4, LetterOctave::from_step(60), LetterOctave::from_step(62));
    let steps: Vec<i64> = (0..4).map(|_| generator.tick().step()).collect();
    assert_eq!(steps, vec![60, 61, 61, 62]);
}

#[test]
fn ramp_falls_when_min_is_above_max() {
    let mut generator = RampPitchGenerator::new(3, LetterOctave::from_step(64), LetterOctave::from_step(60));
    let steps: Vec<i64> = (0..4).map(|_| generator.tick().step()).collect();
    assert_eq!(steps, vec![64, 62, 60, 64]);
}

#[test]
fn ramp_of_length_one_is_constant_min() {
    let mut generator = RampPitchGenerator::new(1, LetterOctave(Letter::D, 2), LetterOctave(Letter::D, 4));
    for _ in 0..5 {
        assert_eq!(generator.tick(), LetterOctave(Letter::D, 2));
    }
}

#[test]
fn square_with_equal_ends_is_constant() {
    let p = LetterOctave(Letter::A, 4);
    let mut generator = SquarePitchGenerator::new(2, p, p);
    for _ in 0..6 {
        assert_eq!(generator.tick(), p);
    }
}

#[test]
fn random_pitch_stays_in_half_open_range_and_varies() {
    let mut generator = RandomPitchGenerator::new(LetterOctave(Letter::C, 1), LetterOctave(Letter::C, 2));
    let mut seen = std::collections::HashSet::new();
    for _ in 0..400 {
        let s = generator.tick().step();
        assert!(24 <= s && s < 36);
        seen.insert(s);
    }
    assert!(seen.len() > 1);
}

#[test]
fn random_pitch_with_equal_ends_yields_min() {
    let p = LetterOctave(Letter::F, 3);
    let mut generator = RandomPitchGenerator::new(p, p);
    for _ in 0..20 {
        assert_eq!(generator.tick(), p);
    }
}

#[test]
fn adder_sums_steps_of_both_operands() {
    let left = RampPitchGenerator::new(2, LetterOctave(Letter::C, 3), LetterOctave(Letter::D, 3));
    let right = SquarePitchGenerator::new(2, LetterOctave::from_step(0), LetterOctave::from_step(12));
    let mut adder = PitchAdder::new(left, right);
    let steps: Vec<i64> = (0..4).map(|_| adder.tick().step()).collect();
    assert_eq!(steps, vec![48, 62, 48, 62]);
}

#[test]
fn quantizer_keeps_pitch_on_scale() {
    let scale = vec![Letter::C, Letter::E, Letter::G];
    assert_eq!(quantize(&scale, LetterOctave(Letter::E, 3)), LetterOctave(Letter::E, 3));
    assert_eq!(quantize(&scale, LetterOctave(Letter::C, 0)), LetterOctave(Letter::C, 0));
}

#[test]
fn quantizer_wraps_to_lowest_letter_one_octave_up() {
    let scale = vec![Letter::C];
    assert_eq!(quantize(&scale, LetterOctave(Letter::Csh, 2)), LetterOctave(Letter::C, 3));
}

#[test]
fn quantizer_snaps_up_within_octave_whatever_the_scale_order() {
    let scale = vec![Letter::A, Letter::D, Letter::F];
    assert_eq!(quantize(&scale, LetterOctave(Letter::Dsh, 4)), LetterOctave(Letter::F, 4));
    assert_eq!(quantize(&scale, LetterOctave(Letter::B, 4)), LetterOctave(Letter::D, 5));
    assert_eq!(quantize(&scale, LetterOctave(Letter::C, 4)), LetterOctave(Letter::D, 4));
}

#[test]
fn pitch_quantizer_quantizes_its_input() {
    let input = RampPitchGenerator::new(3, LetterOctave(Letter::C, 4), LetterOctave(Letter::D, 4));
    let mut q = PitchQuantizer::new(input, vec![Letter::C, Letter::D]);
    let out: Vec<LetterOctave> = (0..3).map(|_| q.tick()).collect();
    assert_eq!(out, vec![LetterOctave(Letter::C, 4), LetterOctave(Letter::D, 4), LetterOctave(Letter::D, 4)]);
}

#[test]
fn clock_divider_passes_every_fourth_tick() {
    let mut divider = ClockDivider::new(RandomTriggerGenerator::new(1, 1), 4);
    let out: Vec<Trigger> = (0..8).map(|_| divider.tick()).collect();
    assert_eq!(
        out,
        vec![Trigger::On, Trigger::Off, Trigger::Off, Trigger::Off, Trigger::On, Trigger::Off, Trigger::Off, Trigger::Off]
    );
}

#[test]
fn clock_divider_with_factor_one_passes_every_tick() {
    let mut divider = ClockDivider::new(RandomTriggerGenerator::new(1, 1), 1);
    for _ in 0..5 {
        assert_eq!(divider.tick(), Trigger::On);
    }
}

#[test]
fn random_trigger_extremes() {
    let mut never = RandomTriggerGenerator::new(0, 1);
    let mut always = RandomTriggerGenerator::new(7, 7);
    for _ in 0..1000 {
        assert_eq!(never.tick(), Trigger::Off);
        assert_eq!(always.tick(), Trigger::On);
    }
}

#[test]
fn random_trigger_half_chance_gives_both() {
    let mut g = RandomTriggerGenerator::new(1, 2);
    let ons = (0..400).filter(|_| g.tick() == Trigger::On).count();
    assert!(ons > 0 && ons < 400);
}

#[test]
fn trigger_from_bool() {
    assert_eq!(Trigger::from_bool(true), Trigger::On);
    assert_eq!(Trigger::from_bool(false), Trigger::Off);
}

#[test]
fn generator_type_names() {
    assert_eq!(PitchGeneratorType::Random.name(), "Random");
    assert_eq!(PitchGeneratorType::RampUp.name(), "Ramp");
    assert_eq!(PitchGeneratorType::Square.name(), "Square");
    assert_eq!(PitchGeneratorType::from_name("Ramp"), Some(PitchGeneratorType::RampUp));
    assert_eq!(PitchGeneratorType::from_name("Square"), Some(PitchGeneratorType::Square));
    assert_eq!(PitchGeneratorType::from_name("Random"), Some(PitchGeneratorType::Random));
    assert_eq!(PitchGeneratorType::from_name("ramp"), None);
    assert_eq!(PitchGeneratorType::from_name(""), None);
}

#[test]
fn letter_octave_steps() {
    assert_eq!(LetterOctave(Letter::C, 4).step(), 60);
    assert_eq!(LetterOctave(Letter::C, -1).step(), 0);
    assert_eq!(LetterOctave::from_step(61), LetterOctave(Letter::Csh, 4));
    assert_eq!(LetterOctave::from_step(-1), LetterOctave(Letter::B, -2));
    assert_eq!(LetterOctave(Letter::Gsh, 1).letter(), Letter::Gsh);
    assert_eq!(LetterOctave(Letter::Gsh, 1).octave(), 1);
}

#[test]
fn letter_octave_formatting() {
    assert_eq!(format_letter_octave(LetterOctave(Letter::Gsh, 1)), "G#1");
    assert_eq!(format_letter_octave(LetterOctave(Letter::C, -1)), "C-1");
    assert_eq!(format_letter_octave(LetterOctave(Letter::B, 10)), "B10");
    assert_eq!(format_letter_octave(LetterOctave(Letter::A, 0)), "A0");
    assert_eq!(format_letter_octave(LetterOctave(Letter::Fsh, -123)), "F#-123");
}
