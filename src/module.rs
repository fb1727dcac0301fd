//! Pitch and trigger generators and the combinators that compose them.
//!
//! Every generator is advanced by `tick`. What one tick may do is stated by the
//! generator's `ticked` relation: `g.ticked(h, out)` holds when a tick can take
//! `g` to `h` and yield `out`. Deterministic generators pin `h` and `out` down;
//! random ones state what holds of every draw.
use vstd::prelude::*;
use rand::rngs::SmallRng;
use crate::pitch::{letter_of_step, Letter, LetterOctave, STEP_MAX, STEP_MIN};
use crate::rng::{draw_in_range, draw_ratio, new_rng};

verus! {

/// A gate: whether a note sounds on a tick.
#[derive(Clone, Copy, PartialEq, Eq, Structural, Debug)]
pub enum Trigger {
    Off,
    On,
}

impl Trigger {
    pub fn from_bool(b: bool) -> (r: Trigger)
        ensures
            r == (if b { Trigger::On } else { Trigger::Off }),
    {
        if b {
            Trigger::On
        } else {
            Trigger::Off
        }
    }
}

/// A generator of gates.
pub trait TriggerModule: Sized {
    /// Whether the generator's state is consistent.
    spec fn wf(&self) -> bool;

    /// Whether one tick can take `self` to `next` and yield `out`.
    spec fn ticked(&self, next: Self, out: Trigger) -> bool;

    fn tick(&mut self) -> (r: Trigger)
        requires
            old(self).wf(),
        ensures
            final(self).wf(),
            old(self).ticked(*final(self), r),
    ;
}

/// Draws an independent gate on each tick: `On` with chance
/// `numerator / denominator`.
pub struct RandomTriggerGenerator {
    pub rng: SmallRng,
    pub numerator: u32,
    pub denominator: u32,
}

impl RandomTriggerGenerator {
    /// A generator that is `On` with chance `numerator / denominator`.
    pub fn new(numerator: u32, denominator: u32) -> (r: RandomTriggerGenerator)
        requires
            0 < denominator,
            numerator <= denominator,
        ensures
            r.wf(),
            r.numerator == numerator,
            r.denominator == denominator,
    {
        RandomTriggerGenerator { rng: new_rng(), numerator, denominator }
    }
}

impl TriggerModule for RandomTriggerGenerator {
    open spec fn wf(&self) -> bool {
        0 < self.denominator && self.numerator <= self.denominator
    }

    /// The chance stays; a chance of 0 never gives `On`, a chance of 1 always does.
    open spec fn ticked(&self, next: Self, out: Trigger) -> bool {
        &&& next.numerator == self.numerator
        &&& next.denominator == self.denominator
        &&& self.numerator == 0 ==> out == Trigger::Off
        &&& self.numerator == self.denominator ==> out == Trigger::On
    }

    fn tick(&mut self) -> (r: Trigger) {
        let b = draw_ratio(&mut self.rng, self.numerator, self.denominator);
        Trigger::from_bool(b)
    }
}

/// Passes on one tick in `factor` to its input and is `Off` on the others.
pub struct ClockDivider<T: TriggerModule> {
    pub factor: u32,
    pub counter: u32,
    pub input: T,
}

impl<T: TriggerModule> ClockDivider<T> {
    pub fn new(input: T, factor: u32) -> (r: ClockDivider<T>)
        requires
            input.wf(),
            factor >= 1,
        ensures
            r.wf(),
            r.factor == factor,
            r.counter == 0,
            r.input == input,
    {
        ClockDivider { factor, counter: 0, input }
    }
}

impl<T: TriggerModule> TriggerModule for ClockDivider<T> {
    open spec fn wf(&self) -> bool {
        self.factor >= 1 && self.counter <= self.factor && self.input.wf()
    }

    /// On a count that is a multiple of the factor the input ticks, its gate
    /// passes through, and the count restarts at 1. Otherwise the output is `Off`,
    /// the input keeps its state, and the count grows by 1.
    open spec fn ticked(&self, next: Self, out: Trigger) -> bool {
        &&& next.factor == self.factor
        &&& if self.counter % self.factor == 0 {
            &&& self.input.ticked(next.input, out)
            &&& next.counter == 1
        } else {
            &&& out == Trigger::Off
            &&& next.input == self.input
            &&& next.counter == self.counter + 1
        }
    }

    fn tick(&mut self) -> (r: Trigger) {
        let trigger = if self.counter % self.factor == 0 {
            self.counter = 0;
            self.input.tick()
        } else {
            proof {
                assert(self.factor % self.factor == 0) by (nonlinear_arith)
                    requires
                        self.factor >= 1,
                ;
                assert(self.counter < self.factor);
            }
            Trigger::Off
        };
        self.counter = self.counter + 1;
        trigger
    }
}

/// A generator of pitches.
pub trait PitchModule: Sized {
    /// Whether the generator's state is consistent.
    spec fn wf(&self) -> bool;

    /// A lower bound on the step of every pitch the generator yields.
    spec fn lowest(&self) -> int;

    /// An upper bound on the step of every pitch the generator yields.
    spec fn highest(&self) -> int;

    /// Whether one tick can take `self` to `next` and yield `out`.
    spec fn ticked(&self, next: Self, out: LetterOctave) -> bool;

    fn tick(&mut self) -> (r: LetterOctave)
        requires
            old(self).wf(),
        ensures
            final(self).wf(),
            old(self).ticked(*final(self), r),
            final(self).lowest() == old(self).lowest(),
            final(self).highest() == old(self).highest(),
            old(self).lowest() <= r.semitones() <= old(self).highest(),
    ;
}

pub open spec fn min_of(a: int, b: int) -> int {
    if a <= b { a } else { b }
}

pub open spec fn max_of(a: int, b: int) -> int {
    if a <= b { b } else { a }
}

/// `a / b` rounded to the nearest integer, halves upward.
pub open spec fn round_div(a: int, b: int) -> int {
    (2 * a + b) / (2 * b)
}

/// Step of a ramp from `min` to `max` over `len` ticks at position `i`: the
/// straight line through both ends, rounded to the nearest step.
pub open spec fn ramp_step(min: int, max: int, len: int, i: int) -> int {
    if len > 1 {
        round_div(min * (len - 1) + i * (max - min), len - 1)
    } else {
        min
    }
}

/// Floor of `a / b`.
fn floor_div(a: i128, b: i128) -> (r: i128)
    requires
        0 < b <= 0x1_0000_0000_0000_0000_0000_0000,
        -0x1_0000_0000_0000_0000_0000_0000 <= a <= 0x1_0000_0000_0000_0000_0000_0000,
    ensures
        r as int == a as int / b as int,
{
    if a >= 0 {
        a / b
    } else {
        let q = ((-a) + b - 1) / b;
        proof {
            let na = -(a as int);
            let bi = b as int;
            vstd::arithmetic::div_mod::lemma_fundamental_div_mod(na + bi - 1, bi);
            vstd::arithmetic::div_mod::lemma_fundamental_div_mod(a as int, bi);
            let qq = (na + bi - 1) / bi;
            let rr = (na + bi - 1) % bi;
            let fq = (a as int) / bi;
            let fr = (a as int) % bi;
            assert(a as int == bi * (-qq) + (bi - 1 - rr)) by (nonlinear_arith)
                requires
                    na + bi - 1 == bi * qq + rr,
                    na == -(a as int),
            ;
            assert(0 <= bi - 1 - rr < bi);
            vstd::arithmetic::div_mod::lemma_div_multiples_vanish_fancy(-qq, bi - 1 - rr, bi);
        }
        -q
    }
}

/// Rises (or falls) in a straight line from `min` to `max` over
/// `cycle_length` ticks, both ends included, and starts over.
pub struct RampPitchGenerator {
    pub cycle_length: u32,
    pub min: i64,
    pub max: i64,
    pub counter: u32,
}

proof fn lemma_ramp_bounds(min: int, max: int, len: int, i: int)
    requires
        len >= 1,
        0 <= i < len,
    ensures
        min_of(min, max) <= ramp_step(min, max, len, i) <= max_of(min, max),
{
    if len > 1 {
        let d = len - 1;
        let a = min * d + i * (max - min);
        let lo = min_of(min, max);
        let hi = max_of(min, max);
        assert(lo * d <= a <= hi * d) by (nonlinear_arith)
            requires
                a == min * d + i * (max - min),
                0 <= i <= d,
                lo == min_of(min, max),
                hi == max_of(min, max),
        ;
        assert(2 * lo * d + d <= 2 * a + d <= 2 * hi * d + d) by (nonlinear_arith)
            requires
                lo * d <= a <= hi * d,
        ;
        vstd::arithmetic::div_mod::lemma_div_is_ordered(2 * lo * d + d, 2 * a + d, 2 * d);
        vstd::arithmetic::div_mod::lemma_div_is_ordered(2 * a + d, 2 * hi * d + d, 2 * d);
        assert(2 * lo * d + d == (2 * d) * lo + d) by (nonlinear_arith);
        assert(2 * hi * d + d == (2 * d) * hi + d) by (nonlinear_arith);
        vstd::arithmetic::div_mod::lemma_div_multiples_vanish_fancy(lo, d, 2 * d);
        vstd::arithmetic::div_mod::lemma_div_multiples_vanish_fancy(hi, d, 2 * d);
    }
}

impl RampPitchGenerator {
    pub fn new(cycle_length: u32, min: LetterOctave, max: LetterOctave) -> (r: RampPitchGenerator)
        requires
            cycle_length >= 1,
        ensures
            r.wf(),
            r.cycle_length == cycle_length,
            r.min == min.semitones(),
            r.max == max.semitones(),
            r.counter == 0,
    {
        RampPitchGenerator { cycle_length, min: min.step(), max: max.step(), counter: 0 }
    }
}

impl PitchModule for RampPitchGenerator {
    open spec fn wf(&self) -> bool {
        &&& self.cycle_length >= 1
        &&& self.counter < self.cycle_length
        &&& STEP_MIN <= self.min <= STEP_MAX
        &&& STEP_MIN <= self.max <= STEP_MAX
    }

    open spec fn lowest(&self) -> int {
        min_of(self.min as int, self.max as int)
    }

    open spec fn highest(&self) -> int {
        max_of(self.min as int, self.max as int)
    }

    /// Yields the ramp's step at the counter; the counter goes up by one and
    /// wraps to 0 after the cycle's last position.
    open spec fn ticked(&self, next: Self, out: LetterOctave) -> bool {
        &&& out.semitones() == ramp_step(
            self.min as int,
            self.max as int,
            self.cycle_length as int,
            self.counter as int,
        )
        &&& next == RampPitchGenerator {
            counter: if self.counter + 1 == self.cycle_length { 0 } else { (self.counter + 1) as u32 },
            ..*self
        }
    }

    fn tick(&mut self) -> (r: LetterOctave) {
        proof {
            lemma_ramp_bounds(
                self.min as int,
                self.max as int,
                self.cycle_length as int,
                self.counter as int,
            );
        }
        let step: i64 = if self.cycle_length > 1 {
            let d = (self.cycle_length - 1) as i128;
            let m = self.min as i128;
            let c = self.counter as i128;
            let diff = self.max as i128 - m;
            proof {
                assert(-0x100_0000_0000_0000_0000 <= m * d <= 0x100_0000_0000_0000_0000)
                    by (nonlinear_arith)
                    requires
                        0 <= d < 0x1_0000_0000,
                        -0x10_0000_0000 <= m <= 0x10_0000_0000,
                ;
                assert(-0x100_0000_0000_0000_0000 <= c * diff <= 0x100_0000_0000_0000_0000)
                    by (nonlinear_arith)
                    requires
                        0 <= c < 0x1_0000_0000,
                        -0x20_0000_0000 <= diff <= 0x20_0000_0000,
                ;
            }
            let a = m * d + c * diff;
            floor_div(2 * a + d, 2 * d) as i64
        } else {
            self.min
        };
        let pitch = LetterOctave::from_step(step);
        if self.counter == self.cycle_length - 1 {
            self.counter = 0;
        } else {
            self.counter = self.counter + 1;
        }
        pitch
    }
}

/// Holds `min` for the first half of each cycle of `cycle_length` ticks and
/// `max` for the rest; an odd cycle gives `max` the extra tick.
pub struct SquarePitchGenerator {
    pub cycle_length: u32,
    pub min: i64,
    pub max: i64,
    pub counter: u32,
}

impl SquarePitchGenerator {
    pub fn new(cycle_length: u32, min: LetterOctave, max: LetterOctave) -> (r: SquarePitchGenerator)
        requires
            cycle_length >= 1,
        ensures
            r.wf(),
            r.cycle_length == cycle_length,
            r.min == min.semitones(),
            r.max == max.semitones(),
            r.counter == 0,
    {
        SquarePitchGenerator { cycle_length, min: min.step(), max: max.step(), counter: 0 }
    }
}

impl PitchModule for SquarePitchGenerator {
    open spec fn wf(&self) -> bool {
        &&& self.cycle_length >= 1
        &&& self.counter < self.cycle_length
        &&& STEP_MIN <= self.min <= STEP_MAX
        &&& STEP_MIN <= self.max <= STEP_MAX
    }

    open spec fn lowest(&self) -> int {
        min_of(self.min as int, self.max as int)
    }

    open spec fn highest(&self) -> int {
        max_of(self.min as int, self.max as int)
    }

    /// The counter goes up by one first; the output is `min` while it is at
    /// most half the cycle length, else `max`; it goes back to 0 on reaching
    /// the cycle length.
    open spec fn ticked(&self, next: Self, out: LetterOctave) -> bool {
        let c = self.counter + 1;
        &&& out.semitones() == (if c <= self.cycle_length / 2 { self.min } else { self.max })
        &&& next == SquarePitchGenerator {
            counter: if c == self.cycle_length { 0 } else { c as u32 },
            ..*self
        }
    }

    fn tick(&mut self) -> (r: LetterOctave) {
        self.counter = self.counter + 1;
        let pitch = if self.counter <= self.cycle_length / 2 {
            LetterOctave::from_step(self.min)
        } else {
            if self.counter == self.cycle_length {
                self.counter = 0;
            }
            LetterOctave::from_step(self.max)
        };
        pitch
    }
}

/// Draws each pitch independently from the steps in `[min, max)`; yields
/// `min` when the two are equal.
pub struct RandomPitchGenerator {
    pub rng: SmallRng,
    pub min: i64,
    pub max: i64,
}

impl RandomPitchGenerator {
    pub fn new(min: LetterOctave, max: LetterOctave) -> (r: RandomPitchGenerator)
        requires
            min.semitones() <= max.semitones(),
        ensures
            r.wf(),
            r.min == min.semitones(),
            r.max == max.semitones(),
    {
        RandomPitchGenerator { rng: new_rng(), min: min.step(), max: max.step() }
    }
}

impl PitchModule for RandomPitchGenerator {
    open spec fn wf(&self) -> bool {
        STEP_MIN <= self.min <= self.max <= STEP_MAX
    }

    open spec fn lowest(&self) -> int {
        self.min as int
    }

    open spec fn highest(&self) -> int {
        self.max as int
    }

    open spec fn ticked(&self, next: Self, out: LetterOctave) -> bool {
        &&& next.min == self.min
        &&& next.max == self.max
        &&& self.min < self.max ==> self.min <= out.semitones() < self.max
        &&& self.min == self.max ==> out.semitones() == self.min
    }

    fn tick(&mut self) -> (r: LetterOctave) {
        if self.min != self.max {
            let s = draw_in_range(&mut self.rng, self.min, self.max);
            LetterOctave::from_step(s)
        } else {
            LetterOctave::from_step(self.min)
        }
    }
}

/// The kinds of pitch generator a configuration can ask for.
#[derive(Clone, Copy, PartialEq, Eq, Structural, Debug)]
pub enum PitchGeneratorType {
    Random,
    RampUp,
    Square,
}

impl PitchGeneratorType {
    /// The kind's display name.
    pub open spec fn name_spec(self) -> Seq<char> {
        match self {
            PitchGeneratorType::Random => seq!['R', 'a', 'n', 'd', 'o', 'm'],
            PitchGeneratorType::RampUp => seq!['R', 'a', 'm', 'p'],
            PitchGeneratorType::Square => seq!['S', 'q', 'u', 'a', 'r', 'e'],
        }
    }

    pub fn name(self) -> (r: &'static str)
        ensures
            r@ == self.name_spec(),
    {
        proof {
            reveal_strlit("Random");
            reveal_strlit("Ramp");
            reveal_strlit("Square");
        }
        match self {
            PitchGeneratorType::Random => "Random",
            PitchGeneratorType::RampUp => "Ramp",
            PitchGeneratorType::Square => "Square",
        }
    }

    /// The kind whose display name is `s`, if any.
    pub fn from_name(s: &str) -> (r: Option<PitchGeneratorType>)
        ensures
            match r {
                Some(t) => s@ == t.name_spec(),
                None => forall|t: PitchGeneratorType| s@ != t.name_spec(),
            },
    {
        let kinds = [PitchGeneratorType::Random, PitchGeneratorType::RampUp, PitchGeneratorType::Square];
        let mut i: usize = 0;
        while i < 3
            invariant
                0 <= i <= 3,
                kinds@ == seq![PitchGeneratorType::Random, PitchGeneratorType::RampUp, PitchGeneratorType::Square],
                forall|j: int| 0 <= j < i ==> s@ != kinds@[j].name_spec(),
            decreases 3 - i,
        {
            let kind = kinds[i];
            if str_eq(s, kind.name()) {
                return Some(kind);
            }
            i = i + 1;
        }
        proof {
            assert forall|t: PitchGeneratorType| s@ != t.name_spec() by {
                match t {
                    PitchGeneratorType::Random => assert(t == kinds@[0]),
                    PitchGeneratorType::RampUp => assert(t == kinds@[1]),
                    PitchGeneratorType::Square => assert(t == kinds@[2]),
                }
            }
        }
        None
    }
}

/// Whether two strings hold the same characters.
fn str_eq(a: &str, b: &str) -> (r: bool)
    ensures
        r == (a@ == b@),
{
    let n = a.unicode_len();
    if n != b.unicode_len() {
        return false;
    }
    let mut i: usize = 0;
    while i < n
        invariant
            n == a@.len() == b@.len(),
            0 <= i <= n,
            forall|j: int| 0 <= j < i ==> a@[j] == b@[j],
        decreases n - i,
    {
        if a.get_char(i) != b.get_char(i) {
            return false;
        }
        i = i + 1;
    }
    proof {
        assert(a@ =~= b@);
    }
    true
}

/// One of the three pitch generators.
pub enum PitchGenerator {
    Random(RandomPitchGenerator),
    Ramp(RampPitchGenerator),
    Square(SquarePitchGenerator),
}

impl PitchModule for PitchGenerator {
    open spec fn wf(&self) -> bool {
        match self {
            PitchGenerator::Random(g) => g.wf(),
            PitchGenerator::Ramp(g) => g.wf(),
            PitchGenerator::Square(g) => g.wf(),
        }
    }

    open spec fn lowest(&self) -> int {
        match self {
            PitchGenerator::Random(g) => g.lowest(),
            PitchGenerator::Ramp(g) => g.lowest(),
            PitchGenerator::Square(g) => g.lowest(),
        }
    }

    open spec fn highest(&self) -> int {
        match self {
            PitchGenerator::Random(g) => g.highest(),
            PitchGenerator::Ramp(g) => g.highest(),
            PitchGenerator::Square(g) => g.highest(),
        }
    }

    /// The generator of the same kind ticks.
    open spec fn ticked(&self, next: Self, out: LetterOctave) -> bool {
        match (self, next) {
            (PitchGenerator::Random(g), PitchGenerator::Random(h)) => g.ticked(h, out),
            (PitchGenerator::Ramp(g), PitchGenerator::Ramp(h)) => g.ticked(h, out),
            (PitchGenerator::Square(g), PitchGenerator::Square(h)) => g.ticked(h, out),
            _ => false,
        }
    }

    fn tick(&mut self) -> (r: LetterOctave) {
        match self {
            PitchGenerator::Random(g) => g.tick(),
            PitchGenerator::Ramp(g) => g.tick(),
            PitchGenerator::Square(g) => g.tick(),
        }
    }
}

/// Adds the pitches of two generators: ticks `right`, then `left`, and
/// yields the sum of their steps.
pub struct PitchAdder<L: PitchModule, R: PitchModule> {
    pub left: L,
    pub right: R,
}

impl<L: PitchModule, R: PitchModule> PitchAdder<L, R> {
    pub fn new(left: L, right: R) -> (r: PitchAdder<L, R>)
        requires
            left.wf(),
            right.wf(),
            STEP_MIN <= left.lowest() + right.lowest(),
            left.highest() + right.highest() <= STEP_MAX,
        ensures
            r.wf(),
            r.left == left,
            r.right == right,
    {
        PitchAdder { left, right }
    }
}

impl<L: PitchModule, R: PitchModule> PitchModule for PitchAdder<L, R> {
    open spec fn wf(&self) -> bool {
        &&& self.left.wf()
        &&& self.right.wf()
        &&& STEP_MIN <= self.left.lowest() + self.right.lowest()
        &&& self.left.highest() + self.right.highest() <= STEP_MAX
    }

    open spec fn lowest(&self) -> int {
        self.left.lowest() + self.right.lowest()
    }

    open spec fn highest(&self) -> int {
        self.left.highest() + self.right.highest()
    }

    /// Both operands tick once and the output's step is the sum of theirs.
    open spec fn ticked(&self, next: Self, out: LetterOctave) -> bool {
        exists|a: LetterOctave, b: LetterOctave|
            #![trigger self.left.ticked(next.left, a), self.right.ticked(next.right, b)]
            self.left.ticked(next.left, a) && self.right.ticked(next.right, b)
                && out.semitones() == a.semitones() + b.semitones()
    }

    fn tick(&mut self) -> (r: LetterOctave) {
        let right_result = self.right.tick();
        let left_result = self.left.tick();
        let result = LetterOctave::from_step(left_result.step() + right_result.step());
        result
    }
}

/// Whether the scale holds the letter at position `l` of the octave.
pub open spec fn scale_has(scale: Seq<Letter>, l: int) -> bool {
    exists|i: int| 0 <= i < scale.len() && scale[i].index() == l
}

/// Whether the pitch at step `s` lies on the scale.
pub open spec fn on_scale(scale: Seq<Letter>, s: int) -> bool {
    scale_has(scale, letter_of_step(s))
}

/// Whether `r` is `p` quantized to the scale: the lowest pitch at or above `p`
/// whose letter is on the scale.
pub open spec fn quantized(scale: Seq<Letter>, p: LetterOctave, r: LetterOctave) -> bool {
    &&& on_scale(scale, r.semitones())
    &&& p.semitones() <= r.semitones()
    &&& forall|t: int| p.semitones() <= t < r.semitones() ==> !on_scale(scale, t)
}

proof fn lemma_letter_in_octave(o: int, j: int)
    requires
        0 <= j < 12,
    ensures
        letter_of_step((o + 1) * 12 + j) == j,
{
    vstd::arithmetic::div_mod::lemma_fundamental_div_mod((o + 1) * 12 + j, 12);
    vstd::arithmetic::div_mod::lemma_mod_multiples_vanish(o + 1, j, 12);
    vstd::arithmetic::div_mod::lemma_small_mod(j as nat, 12);
    assert((o + 1) * 12 + j == 12 * (o + 1) + j);
}

/// Snaps `p` up to the scale: the first letter of the scale at or above
/// `p`'s letter in the same octave, or else the scale's lowest letter one
/// octave higher.
pub fn quantize(scale: &Vec<Letter>, p: LetterOctave) -> (r: LetterOctave)
    requires
        scale.len() > 0,
        p.semitones() + 11 <= STEP_MAX,
    ensures
        quantized(scale@, p, r),
        p.semitones() <= r.semitones() < p.semitones() + 12,
        scale_has(scale@, p.0.index()) ==> r == p,
{
    let l = p.0.to_index();
    let mut above: u8 = 12;
    let mut lowest: u8 = scale[0].to_index();
    let mut k: usize = 0;
    while k < scale.len()
        invariant
            0 <= k <= scale.len(),
            scale.len() > 0,
            l as int == p.0.index(),
            scale_has(scale@, lowest as int),
            lowest < 12,
            forall|j: int| 0 <= j < k ==> lowest <= scale@[j].index(),
            above == 12 || (scale_has(scale@, above as int) && l <= above < 12),
            forall|j: int| 0 <= j < k && l <= scale@[j].index() ==> above <= scale@[j].index(),
        decreases scale.len() - k,
    {
        let x = scale[k].to_index();
        if x < lowest {
            lowest = x;
        }
        if l <= x && x < above {
            above = x;
        }
        k = k + 1;
    }
    let ghost o = p.1 as int;
    proof {
        lemma_letter_in_octave(o, l as int);
    }
    if above < 12 {
        let r = LetterOctave(Letter::from_index(above), p.1);
        proof {
            lemma_letter_in_octave(o, above as int);
            assert forall|t: int| p.semitones() <= t < r.semitones() implies !on_scale(scale@, t) by {
                lemma_letter_in_octave(o, t - (o + 1) * 12);
            }
            if scale_has(scale@, l as int) {
                let j = choose|j: int| 0 <= j < scale@.len() && scale@[j].index() == l as int;
                assert(above <= scale@[j].index());
                assert(r.0 == p.0);
            }
        }
        r
    } else {
        proof {
            assert(l >= 1);
            assert(p.1 < i32::MAX);
        }
        let r = LetterOctave(Letter::from_index(lowest), p.1 + 1);
        proof {
            lemma_letter_in_octave(o + 1, lowest as int);
            assert forall|t: int| p.semitones() <= t < r.semitones() implies !on_scale(scale@, t) by {
                if t < (o + 2) * 12 {
                    lemma_letter_in_octave(o, t - (o + 1) * 12);
                } else {
                    lemma_letter_in_octave(o + 1, t - (o + 2) * 12);
                }
            }
        }
        r
    }
}

/// Quantizes the pitches of its input to a scale.
pub struct PitchQuantizer<P: PitchModule> {
    pub input: P,
    pub enabled_notes: Vec<Letter>,
}

impl<P: PitchModule> PitchQuantizer<P> {
    pub fn new(input: P, enabled_notes: Vec<Letter>) -> (r: PitchQuantizer<P>)
        requires
            input.wf(),
            enabled_notes.len() > 0,
            input.highest() + 11 <= STEP_MAX,
        ensures
            r.wf(),
            r.input == input,
            r.enabled_notes@ == enabled_notes@,
    {
        PitchQuantizer { input, enabled_notes }
    }
}

impl<P: PitchModule> PitchModule for PitchQuantizer<P> {
    open spec fn wf(&self) -> bool {
        &&& self.input.wf()
        &&& self.enabled_notes.len() > 0
        &&& self.input.highest() + 11 <= STEP_MAX
    }

    open spec fn lowest(&self) -> int {
        self.input.lowest()
    }

    open spec fn highest(&self) -> int {
        self.input.highest() + 11
    }

    /// The input ticks once and its pitch, quantized to the scale, is the output.
    open spec fn ticked(&self, next: Self, out: LetterOctave) -> bool {
        &&& next.enabled_notes@ == self.enabled_notes@
        &&& exists|x: LetterOctave|
            #![trigger self.input.ticked(next.input, x)]
            self.input.ticked(next.input, x) && quantized(self.enabled_notes@, x, out)
    }

    fn tick(&mut self) -> (r: LetterOctave) {
        let unquantized = self.input.tick();
        quantize(&self.enabled_notes, unquantized)
    }
}

proof fn lemma_mod_step(k: int, n: int)
    requires
        n >= 1,
        k >= 0,
    ensures
        (k + 1) % n == (if k % n + 1 == n { 0 } else { k % n + 1 }),
{
    vstd::arithmetic::div_mod::lemma_fundamental_div_mod(k, n);
    vstd::arithmetic::div_mod::lemma_mod_bound(k, n);
    let q = k / n;
    let r = k % n;
    if r + 1 == n {
        assert(k + 1 == n * (q + 1) + 0) by (nonlinear_arith)
            requires
                k == n * q + r,
                r + 1 == n,
        ;
        vstd::arithmetic::div_mod::lemma_mod_multiples_vanish(q + 1, 0, n);
        vstd::arithmetic::div_mod::lemma_small_mod(0, n as nat);
    } else {
        assert(k + 1 == n * q + (r + 1));
        vstd::arithmetic::div_mod::lemma_mod_multiples_vanish(q, r + 1, n);
        vstd::arithmetic::div_mod::lemma_small_mod((r + 1) as nat, n as nat);
    }
}

/// A ramp of `n >= 2` positions starts at `min` and ends at `max`.
pub proof fn ramp_reaches_both_ends(min: int, max: int, n: int)
    requires
        n >= 2,
    ensures
        ramp_step(min, max, n, 0) == min,
        ramp_step(min, max, n, n - 1) == max,
{
    let d = n - 1;
    assert(2 * (min * d + 0 * (max - min)) + d == (2 * d) * min + d) by (nonlinear_arith);
    assert(2 * (min * d + (n - 1) * (max - min)) + d == (2 * d) * max + d) by (nonlinear_arith)
        requires
            d == n - 1,
    ;
    vstd::arithmetic::div_mod::lemma_div_multiples_vanish_fancy(min, d, 2 * d);
    vstd::arithmetic::div_mod::lemma_div_multiples_vanish_fancy(max, d, 2 * d);
}

/// Over any run of ticks of a fresh ramp of cycle length `n`, the output of
/// tick `k` (from 0) is the ramp's step at position `k % n`; for `n >= 2` it
/// is `min` on every `n`-th tick from the first and `max` on the last tick of
/// each cycle.
pub proof fn ramp_run_hits_both_ends(runs: Seq<RampPitchGenerator>, outs: Seq<LetterOctave>)
    requires
        runs.len() == outs.len() + 1,
        runs[0].wf(),
        runs[0].counter == 0,
        forall|i: int| 0 <= i < outs.len() ==> #[trigger] runs[i].ticked(runs[i + 1], outs[i]),
    ensures
        forall|k: int|
            0 <= k < outs.len() ==> #[trigger] outs[k].semitones() == ramp_step(
                runs[0].min as int,
                runs[0].max as int,
                runs[0].cycle_length as int,
                k % (runs[0].cycle_length as int),
            ),
        runs[0].cycle_length >= 2 ==> forall|k: int|
            0 <= k < outs.len() && #[trigger] (k % (runs[0].cycle_length as int)) == 0
                ==> outs[k].semitones() == runs[0].min,
        runs[0].cycle_length >= 2 ==> forall|k: int|
            0 <= k < outs.len() && #[trigger] (k % (runs[0].cycle_length as int))
                == runs[0].cycle_length - 1 ==> outs[k].semitones() == runs[0].max,
{
    let g = runs[0];
    let n = g.cycle_length as int;
    assert forall|k: int| 0 <= k <= outs.len() implies #[trigger] runs[k] == (RampPitchGenerator {
        counter: (k % n) as u32,
        ..g
    }) by {
        lemma_ramp_run_counter(runs, outs, k);
    }
    if n >= 2 {
        ramp_reaches_both_ends(g.min as int, g.max as int, n);
    }
    assert forall|k: int| 0 <= k < outs.len() implies #[trigger] outs[k].semitones() == ramp_step(
        g.min as int,
        g.max as int,
        n,
        k % n,
    ) by {
        assert(runs[k].ticked(runs[k + 1], outs[k]));
        assert(runs[k] == (RampPitchGenerator { counter: (k % n) as u32, ..g }));
    }
}

proof fn lemma_ramp_run_counter(runs: Seq<RampPitchGenerator>, outs: Seq<LetterOctave>, k: int)
    requires
        runs.len() == outs.len() + 1,
        runs[0].wf(),
        runs[0].counter == 0,
        forall|i: int| 0 <= i < outs.len() ==> #[trigger] runs[i].ticked(runs[i + 1], outs[i]),
        0 <= k <= outs.len(),
    ensures
        runs[k] == (RampPitchGenerator {
            counter: (k % (runs[0].cycle_length as int)) as u32,
            ..runs[0]
        }),
    decreases k,
{
    let n = runs[0].cycle_length as int;
    if k == 0 {
        vstd::arithmetic::div_mod::lemma_small_mod(0, n as nat);
    } else {
        lemma_ramp_run_counter(runs, outs, k - 1);
        let j = k - 1;
        assert(runs[j].ticked(runs[j + 1], outs[j]));
        lemma_mod_step(k - 1, n);
        vstd::arithmetic::div_mod::lemma_mod_bound(k - 1, n);
    }
}

proof fn lemma_square_run_counter(runs: Seq<SquarePitchGenerator>, outs: Seq<LetterOctave>, k: int)
    requires
        runs.len() == outs.len() + 1,
        runs[0].wf(),
        runs[0].counter == 0,
        forall|i: int| 0 <= i < outs.len() ==> #[trigger] runs[i].ticked(runs[i + 1], outs[i]),
        0 <= k <= outs.len(),
    ensures
        runs[k] == (SquarePitchGenerator {
            counter: (k % (runs[0].cycle_length as int)) as u32,
            ..runs[0]
        }),
    decreases k,
{
    let n = runs[0].cycle_length as int;
    if k == 0 {
        vstd::arithmetic::div_mod::lemma_small_mod(0, n as nat);
    } else {
        lemma_square_run_counter(runs, outs, k - 1);
        let j = k - 1;
        assert(runs[j].ticked(runs[j + 1], outs[j]));
        lemma_mod_step(k - 1, n);
        vstd::arithmetic::div_mod::lemma_mod_bound(k - 1, n);
    }
}

/// Over any run of ticks of a fresh square generator of cycle length `n`,
/// tick `k` (from 0) yields `min` when `k % n` is below `n / 2`, and `max`
/// otherwise.
pub proof fn square_run_alternates(runs: Seq<SquarePitchGenerator>, outs: Seq<LetterOctave>)
    requires
        runs.len() == outs.len() + 1,
        runs[0].wf(),
        runs[0].counter == 0,
        forall|i: int| 0 <= i < outs.len() ==> #[trigger] runs[i].ticked(runs[i + 1], outs[i]),
    ensures
        forall|k: int|
            0 <= k < outs.len() ==> #[trigger] outs[k].semitones() == (if k % (
            runs[0].cycle_length as int) < runs[0].cycle_length / 2 {
                runs[0].min
            } else {
                runs[0].max
            }),
{
    let g = runs[0];
    let n = g.cycle_length as int;
    assert forall|k: int| 0 <= k < outs.len() implies #[trigger] outs[k].semitones() == (if k % n
        < g.cycle_length / 2 {
        g.min
    } else {
        g.max
    }) by {
        lemma_square_run_counter(runs, outs, k);
        assert(runs[k].ticked(runs[k + 1], outs[k]));
    }
}

/// Over any run of ticks of a fresh clock divider with factor `f`, tick `k`
/// (from 0) ticks the input when `k % f == 0`; on every other tick the output
/// is `Off` and the input keeps its state.
pub proof fn clock_divider_run<T: TriggerModule>(runs: Seq<ClockDivider<T>>, outs: Seq<Trigger>)
    requires
        runs.len() == outs.len() + 1,
        runs[0].wf(),
        runs[0].counter == 0,
        forall|i: int| 0 <= i < outs.len() ==> #[trigger] runs[i].ticked(runs[i + 1], outs[i]),
    ensures
        forall|k: int|
            0 <= k < outs.len() && #[trigger] (k % (runs[0].factor as int)) == 0
                ==> runs[k].input.ticked(runs[k + 1].input, outs[k]),
        forall|k: int|
            0 <= k < outs.len() && #[trigger] (k % (runs[0].factor as int)) != 0 ==> outs[k]
                == Trigger::Off && runs[k + 1].input == runs[k].input,
{
    let f = runs[0].factor as int;
    assert forall|k: int| 0 <= k < outs.len() implies (#[trigger] (k % f) == 0 <==> runs[k].counter
        % runs[k].factor == 0) && runs[k].ticked(runs[k + 1], outs[k]) by {
        lemma_clock_divider_run_counter(runs, outs, k);
        assert(runs[k].ticked(runs[k + 1], outs[k]));
        if k == 0 {
            vstd::arithmetic::div_mod::lemma_small_mod(0, f as nat);
        } else {
            lemma_mod_step(k - 1, f);
            vstd::arithmetic::div_mod::lemma_mod_bound(k - 1, f);
            vstd::arithmetic::div_mod::lemma_mod_self_0(f);
            if (k - 1) % f + 1 < f {
                vstd::arithmetic::div_mod::lemma_small_mod(((k - 1) % f + 1) as nat, f as nat);
            }
        }
    }
}

proof fn lemma_clock_divider_run_counter<T: TriggerModule>(
    runs: Seq<ClockDivider<T>>,
    outs: Seq<Trigger>,
    k: int,
)
    requires
        runs.len() == outs.len() + 1,
        runs[0].wf(),
        runs[0].counter == 0,
        forall|i: int| 0 <= i < outs.len() ==> #[trigger] runs[i].ticked(runs[i + 1], outs[i]),
        0 <= k <= outs.len(),
    ensures
        runs[k].factor == runs[0].factor,
        runs[k].counter == (if k == 0 { 0 } else { (k - 1) % (runs[0].factor as int) + 1 }),
    decreases k,
{
    let f = runs[0].factor as int;
    if k > 0 {
        lemma_clock_divider_run_counter(runs, outs, k - 1);
        let j = k - 1;
        assert(runs[j].ticked(runs[j + 1], outs[j]));
        if j == 0 {
            vstd::arithmetic::div_mod::lemma_small_mod(0, f as nat);
        } else {
            lemma_mod_step(j - 1, f);
            vstd::arithmetic::div_mod::lemma_mod_bound(j - 1, f);
            vstd::arithmetic::div_mod::lemma_mod_self_0(f);
            if (j - 1) % f + 1 < f {
                vstd::arithmetic::div_mod::lemma_small_mod(((j - 1) % f + 1) as nat, f as nat);
            }
        }
    }
}

/// Over any run of ticks of a random gate generator, a chance of 0 never
/// gives `On` and a chance of 1 gives `On` every time.
pub proof fn random_trigger_extremes(runs: Seq<RandomTriggerGenerator>, outs: Seq<Trigger>)
    requires
        runs.len() == outs.len() + 1,
        forall|i: int| 0 <= i < outs.len() ==> #[trigger] runs[i].ticked(runs[i + 1], outs[i]),
    ensures
        runs[0].numerator == 0 ==> forall|k: int| 0 <= k < outs.len() ==> #[trigger] outs[k] == Trigger::Off,
        runs[0].numerator == runs[0].denominator ==> forall|k: int|
            0 <= k < outs.len() ==> #[trigger] outs[k] == Trigger::On,
{
    assert forall|k: int| 0 <= k <= outs.len() implies #[trigger] runs[k].numerator == runs[0].numerator
        && runs[k].denominator == runs[0].denominator by {
        lemma_random_trigger_run(runs, outs, k);
    }
    assert forall|k: int| 0 <= k < outs.len() implies runs[k].ticked(runs[k + 1], outs[k]) by {}
}

proof fn lemma_random_trigger_run(runs: Seq<RandomTriggerGenerator>, outs: Seq<Trigger>, k: int)
    requires
        runs.len() == outs.len() + 1,
        forall|i: int| 0 <= i < outs.len() ==> #[trigger] runs[i].ticked(runs[i + 1], outs[i]),
        0 <= k <= outs.len(),
    ensures
        runs[k].numerator == runs[0].numerator,
        runs[k].denominator == runs[0].denominator,
    decreases k,
{
    if k > 0 {
        lemma_random_trigger_run(runs, outs, k - 1);
        let j = k - 1;
        assert(runs[j].ticked(runs[j + 1], outs[j]));
    }
}

proof fn lemma_semitones_injective(a: LetterOctave, b: LetterOctave)
    requires
        a.semitones() == b.semitones(),
    ensures
        a == b,
{
    lemma_letter_in_octave(a.1 as int, a.0.index());
    lemma_letter_in_octave(b.1 as int, b.0.index());
    vstd::arithmetic::div_mod::lemma_div_multiples_vanish_fancy(a.1 as int + 1, a.0.index(), 12);
    vstd::arithmetic::div_mod::lemma_div_multiples_vanish_fancy(b.1 as int + 1, b.0.index(), 12);
    assert(a.semitones() == 12 * (a.1 as int + 1) + a.0.index());
    assert(b.semitones() == 12 * (b.1 as int + 1) + b.0.index());
}

/// A pitch already on the scale is quantized to itself.
pub proof fn quantize_keeps_scale_pitches(scale: Seq<Letter>, p: LetterOctave, r: LetterOctave)
    requires
        scale_has(scale, p.0.index()),
        quantized(scale, p, r),
    ensures
        r == p,
{
    lemma_letter_in_octave(p.1 as int, p.0.index());
    assert(on_scale(scale, p.semitones()));
    lemma_semitones_injective(p, r);
}

/// Quantizing is idempotent: a quantized pitch quantizes to itself.
pub proof fn quantize_is_idempotent(scale: Seq<Letter>, p: LetterOctave, r: LetterOctave, s: LetterOctave)
    requires
        quantized(scale, p, r),
        quantized(scale, r, s),
    ensures
        s == r,
{
    assert(!(r.semitones() < s.semitones()) ==> r.semitones() == s.semitones());
    if r.semitones() < s.semitones() {
        assert(!on_scale(scale, r.semitones()));
    }
    lemma_semitones_injective(r, s);
}

} // verus!
