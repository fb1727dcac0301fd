//! Pitches as letter and octave, and their position on the semitone line.
use vstd::prelude::*;

verus! {

/// One of the twelve pitch letters of the chromatic scale.
#[derive(Clone, Copy, PartialEq, Eq, Structural, Debug)]
pub enum Letter {
    C,
    Csh,
    D,
    Dsh,
    E,
    F,
    Fsh,
    G,
    Gsh,
    A,
    Ash,
    B,
}

/// Lowest step that a `LetterOctave` can stand for: C of the lowest octave.
pub const STEP_MIN: i64 = -25769803764;

/// Highest step that a `LetterOctave` can stand for: B of the highest octave.
pub const STEP_MAX: i64 = 25769803787;

impl Letter {
    /// Position of the letter within the octave, from C (0) to B (11).
    pub open spec fn index(self) -> int {
        match self {
            Letter::C => 0,
            Letter::Csh => 1,
            Letter::D => 2,
            Letter::Dsh => 3,
            Letter::E => 4,
            Letter::F => 5,
            Letter::Fsh => 6,
            Letter::G => 7,
            Letter::Gsh => 8,
            Letter::A => 9,
            Letter::Ash => 10,
            Letter::B => 11,
        }
    }

    pub fn to_index(self) -> (r: u8)
        ensures
            r as int == self.index(),
            r < 12,
    {
        match self {
            Letter::C => 0,
            Letter::Csh => 1,
            Letter::D => 2,
            Letter::Dsh => 3,
            Letter::E => 4,
            Letter::F => 5,
            Letter::Fsh => 6,
            Letter::G => 7,
            Letter::Gsh => 8,
            Letter::A => 9,
            Letter::Ash => 10,
            Letter::B => 11,
        }
    }

    pub fn from_index(i: u8) -> (r: Letter)
        requires
            i < 12,
        ensures
            r.index() == i as int,
    {
        match i {
            0 => Letter::C,
            1 => Letter::Csh,
            2 => Letter::D,
            3 => Letter::Dsh,
            4 => Letter::E,
            5 => Letter::F,
            6 => Letter::Fsh,
            7 => Letter::G,
            8 => Letter::Gsh,
            9 => Letter::A,
            10 => Letter::Ash,
            _ => Letter::B,
        }
    }

    /// The letter's name, with sharps for the black keys.
    pub open spec fn name_spec(self) -> Seq<char> {
        match self {
            Letter::C => seq!['C'],
            Letter::Csh => seq!['C', '#'],
            Letter::D => seq!['D'],
            Letter::Dsh => seq!['D', '#'],
            Letter::E => seq!['E'],
            Letter::F => seq!['F'],
            Letter::Fsh => seq!['F', '#'],
            Letter::G => seq!['G'],
            Letter::Gsh => seq!['G', '#'],
            Letter::A => seq!['A'],
            Letter::Ash => seq!['A', '#'],
            Letter::B => seq!['B'],
        }
    }

    pub fn name(self) -> (r: &'static str)
        ensures
            r@ == self.name_spec(),
    {
        let r = match self {
            Letter::C => "C",
            Letter::Csh => "C#",
            Letter::D => "D",
            Letter::Dsh => "D#",
            Letter::E => "E",
            Letter::F => "F",
            Letter::Fsh => "F#",
            Letter::G => "G",
            Letter::Gsh => "G#",
            Letter::A => "A",
            Letter::Ash => "A#",
            Letter::B => "B",
        };
        proof {
            reveal_strlit("C");
            reveal_strlit("C#");
            reveal_strlit("D");
            reveal_strlit("D#");
            reveal_strlit("E");
            reveal_strlit("F");
            reveal_strlit("F#");
            reveal_strlit("G");
            reveal_strlit("G#");
            reveal_strlit("A");
            reveal_strlit("A#");
            reveal_strlit("B");
        }
        r
    }
}

/// Letter of the pitch that lies `s` semitones above C of octave -1.
pub open spec fn letter_of_step(s: int) -> int {
    s % 12
}

/// Octave of the pitch that lies `s` semitones above C of octave -1.
pub open spec fn octave_of_step(s: int) -> int {
    s / 12 - 1
}

/// A pitch as a letter and an octave; C of octave 4 is middle C (step 60).
#[derive(Clone, Copy, PartialEq, Eq, Structural, Debug)]
pub struct LetterOctave(pub Letter, pub i32);

impl LetterOctave {
    /// The pitch's step: semitones above C of octave -1.
    pub open spec fn semitones(self) -> int {
        (self.1 + 1) * 12 + self.0.index()
    }

    pub fn letter(self) -> (r: Letter)
        ensures
            r == self.0,
    {
        self.0
    }

    pub fn octave(self) -> (r: i32)
        ensures
            r == self.1,
    {
        self.1
    }

    /// The pitch's step.
    pub fn step(self) -> (r: i64)
        ensures
            r as int == self.semitones(),
            STEP_MIN <= r <= STEP_MAX,
    {
        (self.1 as i64 + 1) * 12 + self.0.to_index() as i64
    }

    /// The pitch at the given step.
    pub fn from_step(s: i64) -> (r: LetterOctave)
        requires
            STEP_MIN <= s <= STEP_MAX,
        ensures
            r.semitones() == s as int,
            r.0.index() == letter_of_step(s as int),
            r.1 as int == octave_of_step(s as int),
    {
        let u: u64 = (s - STEP_MIN) as u64;
        let letter = Letter::from_index((u % 12) as u8);
        let octave = (u / 12) as i64 + (i32::MIN as i64);
        proof {
            assert(STEP_MIN as int == 12 * (i32::MIN as int + 1));
            assert(u as int == s as int - 12 * (i32::MIN as int + 1));
            assert((s as int) % 12 == (u as int) % 12 && (s as int) / 12 - 1 == (u as int) / 12
                + i32::MIN as int) by {
                assert(u as int == s as int + 12 * (-(i32::MIN as int) - 1));
                lemma_shift_div_mod(s as int, -(i32::MIN as int) - 1);
            }
        }
        LetterOctave(letter, octave as i32)
    }
}

/// The character of a decimal digit.
pub open spec fn digit_char(d: nat) -> char {
    if d == 0 { '0' }
    else if d == 1 { '1' }
    else if d == 2 { '2' }
    else if d == 3 { '3' }
    else if d == 4 { '4' }
    else if d == 5 { '5' }
    else if d == 6 { '6' }
    else if d == 7 { '7' }
    else if d == 8 { '8' }
    else { '9' }
}

/// The decimal digits of `n`, most significant first, without leading zeros.
pub open spec fn digits(n: nat) -> Seq<char>
    decreases n,
{
    if n < 10 {
        seq![digit_char(n)]
    } else {
        digits(n / 10) + seq![digit_char(n % 10)]
    }
}

/// `i` written in decimal, with a leading minus sign when negative.
pub open spec fn decimal(i: int) -> Seq<char> {
    if i < 0 {
        seq!['-'] + digits((-i) as nat)
    } else {
        digits(i as nat)
    }
}

fn digit_str(d: u64) -> (r: &'static str)
    requires
        d < 10,
    ensures
        r@ == seq![digit_char(d as nat)],
{
    proof {
        reveal_strlit("0");
        reveal_strlit("1");
        reveal_strlit("2");
        reveal_strlit("3");
        reveal_strlit("4");
        reveal_strlit("5");
        reveal_strlit("6");
        reveal_strlit("7");
        reveal_strlit("8");
        reveal_strlit("9");
    }
    match d {
        0 => "0",
        1 => "1",
        2 => "2",
        3 => "3",
        4 => "4",
        5 => "5",
        6 => "6",
        7 => "7",
        8 => "8",
        _ => "9",
    }
}

fn append_digits(s: &mut String, n: u64)
    ensures
        final(s)@ == old(s)@ + digits(n as nat),
    decreases n,
{
    if n >= 10 {
        append_digits(s, n / 10);
    }
    s.append(digit_str(n % 10));
    proof {
        assert(s@ =~= old(s)@ + digits(n as nat));
    }
}

/// Formats a pitch as its letter name followed by its octave, as in `G#3` or `C-1`.
pub fn format_letter_octave(letter_octave: LetterOctave) -> (r: String)
    ensures
        r@ == letter_octave.0.name_spec() + decimal(letter_octave.1 as int),
{
    let mut r = String::new();
    r.append(letter_octave.0.name());
    let octave = letter_octave.1;
    if octave < 0 {
        proof {
            reveal_strlit("-");
        }
        r.append("-");
        append_digits(&mut r, (-(octave as i64)) as u64);
    } else {
        append_digits(&mut r, octave as u64);
    }
    proof {
        assert(r@ =~= letter_octave.0.name_spec() + decimal(letter_octave.1 as int));
    }
    r
}

proof fn lemma_shift_div_mod(s: int, k: int)
    ensures
        (s + 12 * k) % 12 == s % 12,
        (s + 12 * k) / 12 == s / 12 + k,
{
    vstd::arithmetic::div_mod::lemma_mod_multiples_vanish(k, s, 12);
    vstd::arithmetic::div_mod::lemma_fundamental_div_mod(s, 12);
    assert(s + 12 * k == 12 * (s / 12 + k) + s % 12) by (nonlinear_arith)
        requires
            s == 12 * (s / 12) + s % 12,
    ;
    vstd::arithmetic::div_mod::lemma_div_multiples_vanish_fancy(s / 12 + k, s % 12, 12);
}

} // verus!
