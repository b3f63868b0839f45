//! Orientation of a feature on its sequence.

use vstd::prelude::*;

verus! {

/// Transcription orientation of a feature.
#[derive(Clone, Copy, Debug, PartialEq, Eq, Structural)]
pub enum Strand {
    Forward,
    Reverse,
    Unknown,
}

/// The strand that a strand character denotes, if it denotes one.
pub open spec fn strand_of_char(c: char) -> Option<Strand> {
    if c == '+' {
        Some(Strand::Forward)
    } else if c == '-' {
        Some(Strand::Reverse)
    } else if c == '.' {
        Some(Strand::Unknown)
    } else {
        None
    }
}

/// The strand that `bio_types::strand::Strand::from_char` reads from a
/// character: besides `+`, `-` and `.` it takes `f`, `F`, `r`, `R` and `?`.
pub open spec fn lenient_strand_of_char(c: char) -> Option<Strand> {
    if c == '+' || c == 'f' || c == 'F' {
        Some(Strand::Forward)
    } else if c == '-' || c == 'r' || c == 'R' {
        Some(Strand::Reverse)
    } else if c == '.' || c == '?' {
        Some(Strand::Unknown)
    } else {
        None
    }
}

/// Calls `bio_types::strand::Strand::from_char` and hands its answer back as
/// this library's `Strand`. The contract repeats the mapping that the
/// function documents; an error of the outside function becomes `None`.
#[verifier::external_body]
fn lenient_from_char(c: char) -> (r: Option<Strand>)
    ensures
        r == lenient_strand_of_char(c),
{
    match bio_types::strand::Strand::from_char(&c) {
        Ok(bio_types::strand::Strand::Forward) => Some(Strand::Forward),
        Ok(bio_types::strand::Strand::Reverse) => Some(Strand::Reverse),
        Ok(bio_types::strand::Strand::Unknown) => Some(Strand::Unknown),
        Err(_) => None,
    }
}

impl Strand {
    /// Reads a strand from `+`, `-` or `.`; any other character is refused.
    pub fn from_char(c: char) -> (r: Option<Strand>)
        ensures
            r == strand_of_char(c),
    {
        if c == '+' || c == '-' || c == '.' {
            lenient_from_char(c)
        } else {
            None
        }
    }

    /// The character that denotes this strand.
    pub open spec fn symbol(self) -> char {
        match self {
            Strand::Forward => '+',
            Strand::Reverse => '-',
            Strand::Unknown => '.',
        }
    }

    /// The character that denotes this strand.
    pub fn to_char(&self) -> (c: char)
        ensures
            c == self.symbol(),
            strand_of_char(c) == Some(*self),
    {
        match self {
            Strand::Forward => '+',
            Strand::Reverse => '-',
            Strand::Unknown => '.',
        }
    }
}

} // verus!
