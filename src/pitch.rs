use vstd::prelude::*;

use crate::OCTAVE;

verus! {

/// Relies on num_integer's `Integer::div_rem` for `u8`: the quotient and the
/// remainder of `x` divided by `d`, which must not be zero.
#[verifier::external_body]
fn div_rem(x: u8, d: u8) -> (r: (u8, u8))
    requires
        d != 0,
    ensures
        r.0 == x / d,
        r.1 == x % d,
{
    num_integer::Integer::div_rem(&x, &d)
}

/// A pitch class with the octave it lies in.
#[derive(Debug, Copy, Clone, PartialEq, Eq, PartialOrd, Ord, Structural)]
pub enum Pitch {
    C(u8),
    CD(u8),
    D(u8),
    DE(u8),
    E(u8),
    F(u8),
    FG(u8),
    G(u8),
    GA(u8),
    A(u8),
    AB(u8),
    B(u8),
}

/// The position of the pitch class within the octave, from C up.
pub open spec fn class_of(p: Pitch) -> nat {
    match p {
        Pitch::C(_) => 0,
        Pitch::CD(_) => 1,
        Pitch::D(_) => 2,
        Pitch::DE(_) => 3,
        Pitch::E(_) => 4,
        Pitch::F(_) => 5,
        Pitch::FG(_) => 6,
        Pitch::G(_) => 7,
        Pitch::GA(_) => 8,
        Pitch::A(_) => 9,
        Pitch::AB(_) => 10,
        Pitch::B(_) => 11,
    }
}

/// The octave of the pitch.
pub open spec fn octave_of(p: Pitch) -> nat {
    match p {
        Pitch::C(o) => o as nat,
        Pitch::CD(o) => o as nat,
        Pitch::D(o) => o as nat,
        Pitch::DE(o) => o as nat,
        Pitch::E(o) => o as nat,
        Pitch::F(o) => o as nat,
        Pitch::FG(o) => o as nat,
        Pitch::G(o) => o as nat,
        Pitch::GA(o) => o as nat,
        Pitch::A(o) => o as nat,
        Pitch::AB(o) => o as nat,
        Pitch::B(o) => o as nat,
    }
}

/// Semitones from `C(0)` up to the pitch.
pub open spec fn interval_of(p: Pitch) -> nat {
    class_of(p) + (OCTAVE as nat) * octave_of(p)
}

/// The pitch of the given class, below twelve, in octave `o`.
pub open spec fn pitch_at(class: nat, o: u8) -> Pitch {
    if class == 0 {
        Pitch::C(o)
    } else if class == 1 {
        Pitch::CD(o)
    } else if class == 2 {
        Pitch::D(o)
    } else if class == 3 {
        Pitch::DE(o)
    } else if class == 4 {
        Pitch::E(o)
    } else if class == 5 {
        Pitch::F(o)
    } else if class == 6 {
        Pitch::FG(o)
    } else if class == 7 {
        Pitch::G(o)
    } else if class == 8 {
        Pitch::GA(o)
    } else if class == 9 {
        Pitch::A(o)
    } else if class == 10 {
        Pitch::AB(o)
    } else {
        Pitch::B(o)
    }
}

/// The pitch that lies `i` semitones above `C(0)`.
pub open spec fn pitch_of(i: u8) -> Pitch {
    pitch_at((i % OCTAVE) as nat, i / OCTAVE)
}

/// Orders pitches as the derived `Ord` does: by pitch class first, then by octave.
pub open spec fn declared_le(a: Pitch, b: Pitch) -> bool {
    class_of(a) < class_of(b) || (class_of(a) == class_of(b) && octave_of(a) <= octave_of(b))
}

impl Pitch {
    /// The pitch lies within the range of `u8` intervals.
    pub open spec fn wf(self) -> bool {
        interval_of(self) <= u8::MAX
    }

    pub fn from_interval(interval: u8) -> (r: Pitch)
        ensures
            r == pitch_of(interval),
            r.wf(),
            interval_of(r) == interval,
    {
        let (octave, pitch) = div_rem(interval, OCTAVE);
        match pitch {
            0 => Pitch::C(octave),
            1 => Pitch::CD(octave),
            2 => Pitch::D(octave),
            3 => Pitch::DE(octave),
            4 => Pitch::E(octave),
            5 => Pitch::F(octave),
            6 => Pitch::FG(octave),
            7 => Pitch::G(octave),
            8 => Pitch::GA(octave),
            9 => Pitch::A(octave),
            10 => Pitch::AB(octave),
            _ => Pitch::B(octave),
        }
    }

    pub fn as_interval(&self) -> (r: u8)
        requires
            self.wf(),
        ensures
            r == interval_of(*self),
    {
        match *self {
            Pitch::C(n) => 0 + n * 12,
            Pitch::CD(n) => 1 + n * 12,
            Pitch::D(n) => 2 + n * 12,
            Pitch::DE(n) => 3 + n * 12,
            Pitch::E(n) => 4 + n * 12,
            Pitch::F(n) => 5 + n * 12,
            Pitch::FG(n) => 6 + n * 12,
            Pitch::G(n) => 7 + n * 12,
            Pitch::GA(n) => 8 + n * 12,
            Pitch::A(n) => 9 + n * 12,
            Pitch::AB(n) => 10 + n * 12,
            Pitch::B(n) => 11 + n * 12,
        }
    }

    /// The pitch `interval` semitones higher, if it is within range.
    pub fn add_interval(self, interval: u8) -> (r: Option<Pitch>)
        requires
            self.wf(),
        ensures
            interval_of(self) + interval <= u8::MAX ==> r == Some(
                pitch_of((interval_of(self) + interval) as u8),
            ),
            interval_of(self) + interval > u8::MAX ==> r == None::<Pitch>,
    {
        match self.as_interval().checked_add(interval) {
            Some(i) => Some(Pitch::from_interval(i)),
            None => None,
        }
    }

    /// The pitch `interval` semitones lower, if it is within range.
    pub fn sub_interval(self, interval: u8) -> (r: Option<Pitch>)
        requires
            self.wf(),
        ensures
            interval <= interval_of(self) ==> r == Some(
                pitch_of((interval_of(self) - interval) as u8),
            ),
            interval > interval_of(self) ==> r == None::<Pitch>,
    {
        match self.as_interval().checked_sub(interval) {
            Some(i) => Some(Pitch::from_interval(i)),
            None => None,
        }
    }

    pub fn iter(&self) -> (r: Iter)
        ensures
            r@ == *self,
    {
        Iter { inner: *self }
    }

    /// The name of the pitch class, spelling the black keys with `a`.
    pub fn to_string_with_accidental(&self, a: Accidental) -> (r: String)
        ensures
            r@ == name_of(*self, a),
    {
        let s: &str = match *self {
            Pitch::C(_) => "C",
            Pitch::CD(_) => match a {
                Accidental::Flat => "Db",
                Accidental::Sharp => "C#",
            },
            Pitch::D(_) => "D",
            Pitch::DE(_) => match a {
                Accidental::Flat => "Eb",
                Accidental::Sharp => "D#",
            },
            Pitch::E(_) => "E",
            Pitch::F(_) => "F",
            Pitch::FG(_) => match a {
                Accidental::Flat => "Gb",
                Accidental::Sharp => "F#",
            },
            Pitch::G(_) => "G",
            Pitch::GA(_) => match a {
                Accidental::Flat => "Ab",
                Accidental::Sharp => "G#",
            },
            Pitch::A(_) => "A",
            Pitch::AB(_) => match a {
                Accidental::Flat => "Bb",
                Accidental::Sharp => "A#",
            },
            Pitch::B(_) => "B",
        };
        s.to_owned()
    }

    /// The interval from `self` up to `other`, when `self` comes first in the
    /// declared order of pitches.
    pub fn interval_between(&self, other: &Pitch) -> (r: Option<u8>)
        requires
            self.wf(),
            other.wf(),
            declared_le(*self, *other) ==> interval_of(*self) <= interval_of(*other),
        ensures
            declared_le(*self, *other) ==> r == Some((interval_of(*other) - interval_of(*self)) as u8),
            !declared_le(*self, *other) ==> r == None::<u8>,
    {
        if self.le_declared(other) {
            Some(other.as_interval() - self.as_interval())
        } else {
            None
        }
    }

    /// The position of the pitch class within the octave.
    fn class(&self) -> (r: u8)
        ensures
            r == class_of(*self),
    {
        match *self {
            Pitch::C(_) => 0,
            Pitch::CD(_) => 1,
            Pitch::D(_) => 2,
            Pitch::DE(_) => 3,
            Pitch::E(_) => 4,
            Pitch::F(_) => 5,
            Pitch::FG(_) => 6,
            Pitch::G(_) => 7,
            Pitch::GA(_) => 8,
            Pitch::A(_) => 9,
            Pitch::AB(_) => 10,
            Pitch::B(_) => 11,
        }
    }

    fn octave(&self) -> (r: u8)
        ensures
            r == octave_of(*self),
    {
        match *self {
            Pitch::C(o) => o,
            Pitch::CD(o) => o,
            Pitch::D(o) => o,
            Pitch::DE(o) => o,
            Pitch::E(o) => o,
            Pitch::F(o) => o,
            Pitch::FG(o) => o,
            Pitch::G(o) => o,
            Pitch::GA(o) => o,
            Pitch::A(o) => o,
            Pitch::AB(o) => o,
            Pitch::B(o) => o,
        }
    }

    fn le_declared(&self, other: &Pitch) -> (r: bool)
        ensures
            r == declared_le(*self, *other),
    {
        let (a, b) = (self.class(), other.class());
        a < b || (a == b && self.octave() <= other.octave())
    }
}

impl Default for Pitch {
    fn default() -> (r: Self)
        ensures
            r == Pitch::C(0),
    {
        Pitch::C(0)
    }
}

#[derive(Debug, Copy, Clone, PartialEq, Eq, PartialOrd, Ord, Structural)]
pub enum Accidental {
    Flat,
    Sharp,
}

/// The name of the pitch class of `p`.
pub open spec fn name_of(p: Pitch, a: Accidental) -> Seq<char> {
    match p {
        Pitch::C(_) => "C"@,
        Pitch::CD(_) => if a is Flat {
            "Db"@
        } else {
            "C#"@
        },
        Pitch::D(_) => "D"@,
        Pitch::DE(_) => if a is Flat {
            "Eb"@
        } else {
            "D#"@
        },
        Pitch::E(_) => "E"@,
        Pitch::F(_) => "F"@,
        Pitch::FG(_) => if a is Flat {
            "Gb"@
        } else {
            "F#"@
        },
        Pitch::G(_) => "G"@,
        Pitch::GA(_) => if a is Flat {
            "Ab"@
        } else {
            "G#"@
        },
        Pitch::A(_) => "A"@,
        Pitch::AB(_) => if a is Flat {
            "Bb"@
        } else {
            "A#"@
        },
        Pitch::B(_) => "B"@,
    }
}

/// The pitch a semitone above `p`; `None` past the highest octave number.
pub open spec fn successor(p: Pitch) -> Option<Pitch> {
    match p {
        Pitch::C(o) => Some(Pitch::CD(o)),
        Pitch::CD(o) => Some(Pitch::D(o)),
        Pitch::D(o) => Some(Pitch::DE(o)),
        Pitch::DE(o) => Some(Pitch::E(o)),
        Pitch::E(o) => Some(Pitch::F(o)),
        Pitch::F(o) => Some(Pitch::FG(o)),
        Pitch::FG(o) => Some(Pitch::G(o)),
        Pitch::G(o) => Some(Pitch::GA(o)),
        Pitch::GA(o) => Some(Pitch::A(o)),
        Pitch::A(o) => Some(Pitch::AB(o)),
        Pitch::AB(o) => Some(Pitch::B(o)),
        Pitch::B(o) => if o < u8::MAX {
            Some(Pitch::C((o + 1) as u8))
        } else {
            None
        },
    }
}

/// The pitch a semitone below `p`; `None` below octave zero.
pub open spec fn predecessor(p: Pitch) -> Option<Pitch> {
    match p {
        Pitch::C(o) => if o > 0 {
            Some(Pitch::B((o - 1) as u8))
        } else {
            None
        },
        Pitch::CD(o) => Some(Pitch::C(o)),
        Pitch::D(o) => Some(Pitch::CD(o)),
        Pitch::DE(o) => Some(Pitch::D(o)),
        Pitch::E(o) => Some(Pitch::DE(o)),
        Pitch::F(o) => Some(Pitch::E(o)),
        Pitch::FG(o) => Some(Pitch::F(o)),
        Pitch::G(o) => Some(Pitch::FG(o)),
        Pitch::GA(o) => Some(Pitch::G(o)),
        Pitch::A(o) => Some(Pitch::GA(o)),
        Pitch::AB(o) => Some(Pitch::A(o)),
        Pitch::B(o) => Some(Pitch::AB(o)),
    }
}

/// Walks the pitches semitone by semitone from a start pitch.
#[derive(Debug, Copy, Clone)]
pub struct Iter {
    inner: Pitch,
}

impl View for Iter {
    type V = Pitch;

    /// The pitch the walk yields next.
    closed spec fn view(&self) -> Pitch {
        self.inner
    }
}

impl Iter {
    /// Yields the current pitch and moves a semitone up; `None`, without
    /// moving, when no higher pitch can be named.
    pub fn next(&mut self) -> (r: Option<Pitch>)
        ensures
            successor(old(self)@) is Some ==> r == Some(old(self)@)
                && final(self)@ == successor(old(self)@)->Some_0,
            successor(old(self)@) is None ==> r == None::<Pitch> && *final(self) == *old(self),
    {
        let cur = self.inner;
        let up = match cur {
            Pitch::C(o) => Pitch::CD(o),
            Pitch::CD(o) => Pitch::D(o),
            Pitch::D(o) => Pitch::DE(o),
            Pitch::DE(o) => Pitch::E(o),
            Pitch::E(o) => Pitch::F(o),
            Pitch::F(o) => Pitch::FG(o),
            Pitch::FG(o) => Pitch::G(o),
            Pitch::G(o) => Pitch::GA(o),
            Pitch::GA(o) => Pitch::A(o),
            Pitch::A(o) => Pitch::AB(o),
            Pitch::AB(o) => Pitch::B(o),
            Pitch::B(o) => {
                if o == u8::MAX {
                    return None;
                }
                Pitch::C(o + 1)
            },
        };
        self.inner = up;
        Some(cur)
    }

    /// Yields the current pitch and moves a semitone down; `None`, without
    /// moving, when no lower pitch can be named.
    pub fn next_back(&mut self) -> (r: Option<Pitch>)
        ensures
            predecessor(old(self)@) is Some ==> r == Some(old(self)@)
                && final(self)@ == predecessor(old(self)@)->Some_0,
            predecessor(old(self)@) is None ==> r == None::<Pitch> && *final(self) == *old(self),
    {
        let cur = self.inner;
        let down = match cur {
            Pitch::C(o) => {
                if o == 0 {
                    return None;
                }
                Pitch::B(o - 1)
            },
            Pitch::CD(o) => Pitch::C(o),
            Pitch::D(o) => Pitch::CD(o),
            Pitch::DE(o) => Pitch::D(o),
            Pitch::E(o) => Pitch::DE(o),
            Pitch::F(o) => Pitch::E(o),
            Pitch::FG(o) => Pitch::F(o),
            Pitch::G(o) => Pitch::FG(o),
            Pitch::GA(o) => Pitch::G(o),
            Pitch::A(o) => Pitch::GA(o),
            Pitch::AB(o) => Pitch::A(o),
            Pitch::B(o) => Pitch::AB(o),
        };
        self.inner = down;
        Some(cur)
    }
}

} // verus!
