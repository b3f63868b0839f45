//! Failures of feature construction.

use vstd::prelude::*;
use vstd::string::StringExecFns;

verus! {

/// Why a feature, a transcript or a gene could not be built.
#[derive(Clone, Copy, Debug, PartialEq, Eq, Structural)]
pub enum FeatureError {
    /// An interval's start lies after its end.
    IntervalError,
    /// A strand character is none of `+`, `-` and `.`.
    StrandCharError,
    /// A strand value and a strand character were both given and disagree.
    ConflictingStrandError,
    /// Neither a strand value nor a strand character was given.
    UnspecifiedStrandError,
    /// A sub-feature does not fit its parent.
    SubFeatureIntervalError,
    /// A transcript lacks the exons that the rest of its input needs.
    IncompleteTranscriptError,
}

impl FeatureError {
    /// The text that describes each failure.
    pub open spec fn description_text(self) -> Seq<char> {
        match self {
            FeatureError::IntervalError =>
                "interval start coordinate larger than its end coordinate"@,
            FeatureError::StrandCharError => "strand character is invalid"@,
            FeatureError::ConflictingStrandError => "conflicting strand inputs specified"@,
            FeatureError::UnspecifiedStrandError => "strand not specified"@,
            FeatureError::SubFeatureIntervalError =>
                "subfeature interval is not completely enveloped by parent"@,
            FeatureError::IncompleteTranscriptError => "transcript annotation is incomplete"@,
        }
    }

    /// A short description of the failure.
    pub fn description(&self) -> (r: &'static str)
        ensures
            r@ == self.description_text(),
    {
        match self {
            FeatureError::IntervalError =>
                "interval start coordinate larger than its end coordinate",
            FeatureError::StrandCharError => "strand character is invalid",
            FeatureError::ConflictingStrandError => "conflicting strand inputs specified",
            FeatureError::UnspecifiedStrandError => "strand not specified",
            FeatureError::SubFeatureIntervalError =>
                "subfeature interval is not completely enveloped by parent",
            FeatureError::IncompleteTranscriptError => "transcript annotation is incomplete",
        }
    }

    /// The description behind the prefix `FeatureError: `.
    pub fn message(&self) -> (r: String)
        ensures
            r@ == "FeatureError: "@ + self.description_text(),
    {
        let mut text = String::from_str("FeatureError: ");
        text.append(self.description());
        text
    }
}

/// Why a row of the transcript table could not be used.
#[derive(Clone, Copy, Debug, PartialEq, Eq, Structural)]
pub enum RefFlatError {
    /// The row does not have eleven columns.
    ColumnCountMismatch,
    /// The strand column does not hold exactly one character.
    StrandColumn,
    /// The exon columns and the exon count do not agree in number.
    ExonCountMismatch,
}

impl RefFlatError {
    /// The text that describes each failure.
    pub open spec fn description_text(self) -> Seq<char> {
        match self {
            RefFlatError::ColumnCountMismatch => "unexpected number of columns"@,
            RefFlatError::StrandColumn => "strand column is not a single character"@,
            RefFlatError::ExonCountMismatch => "number of exon and exon coordinates mismatch"@,
        }
    }

    /// A short description of the failure.
    pub fn description(&self) -> (r: &'static str)
        ensures
            r@ == self.description_text(),
    {
        match self {
            RefFlatError::ColumnCountMismatch => "unexpected number of columns",
            RefFlatError::StrandColumn => "strand column is not a single character",
            RefFlatError::ExonCountMismatch => "number of exon and exon coordinates mismatch",
        }
    }
}

/// Any failure of reading, building or writing annotations.
#[derive(Debug, PartialEq, Eq)]
pub enum Error {
    /// A feature, a transcript or a gene could not be built.
    Feature(FeatureError),
    /// A row could not be used.
    RefFlat(RefFlatError),
    /// A column that has to hold a number does not.
    ParseInt,
    /// The table could not be read or written; the text says why.
    Csv(String),
    /// The input or the output failed; the text says why.
    Io(String),
}

impl Error {
    /// The text that describes the failure.
    pub open spec fn description_text(self) -> Seq<char> {
        match self {
            Error::Feature(e) => e.description_text(),
            Error::RefFlat(e) => e.description_text(),
            Error::ParseInt => "invalid digit found in string"@,
            Error::Csv(text) => text@,
            Error::Io(text) => text@,
        }
    }

    /// A description of the failure.
    pub fn description(&self) -> (r: String)
        ensures
            r@ == self.description_text(),
    {
        match self {
            Error::Feature(e) => String::from_str(e.description()),
            Error::RefFlat(e) => String::from_str(e.description()),
            Error::ParseInt => String::from_str("invalid digit found in string"),
            Error::Csv(text) => text.clone(),
            Error::Io(text) => text.clone(),
        }
    }

    /// The same failure once more.
    pub fn duplicate(&self) -> (r: Error)
        ensures
            r == *self,
    {
        match self {
            Error::Feature(e) => Error::Feature(*e),
            Error::RefFlat(e) => Error::RefFlat(*e),
            Error::ParseInt => Error::ParseInt,
            Error::Csv(text) => Error::Csv(text.clone()),
            Error::Io(text) => Error::Io(text.clone()),
        }
    }
}

} // verus!
