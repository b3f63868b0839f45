//! Features of a transcript and what every annotation has in common.

use vstd::prelude::*;
use vstd::string::StringExecFns;
use crate::attributes::Attributes;
use crate::error::FeatureError;
use crate::interval::Interval;
use crate::kind::TxFeature;
use crate::strand::{strand_of_char, Strand};

verus! {

/// What every annotation carries: the name of its sequence, its range, its
/// attributes and its strand.
pub trait Annotation {
    /// The name of the sequence, as text.
    spec fn seq_name_view(&self) -> Seq<char>;

    /// The start and the end of the range.
    spec fn bounds(&self) -> (u64, u64);

    /// The attributes, as a mapping.
    spec fn attributes_view(&self) -> Map<Seq<char>, Seq<char>>;

    /// The strand.
    spec fn strand_view(&self) -> Strand;

    /// The name of the sequence that the annotation lies on.
    fn seq_name(&self) -> (r: &str)
        ensures
            r@ == self.seq_name_view(),
    ;

    /// The range that the annotation covers.
    fn interval(&self) -> (r: &Interval)
        ensures
            r.start() == self.bounds().0,
            r.end() == self.bounds().1,
    ;

    /// All attributes of the annotation.
    fn attributes(&self) -> (r: &Attributes)
        ensures
            r@ == self.attributes_view(),
    ;

    /// The value of one attribute, if the annotation has it.
    fn attribute(&self, key: &str) -> (r: Option<&str>)
        ensures
            match r {
                Some(value) => self.attributes_view().dom().contains(key@)
                    && self.attributes_view()[key@] == value@,
                None => !self.attributes_view().dom().contains(key@),
            },
    ;

    /// The strand of the annotation.
    fn strand(&self) -> (r: &Strand)
        ensures
            *r == self.strand_view(),
    ;

    /// The number of coordinates that the annotation covers.
    fn span(&self) -> (r: u64)
        ensures
            r == self.bounds().1 - self.bounds().0,
    {
        let interval = self.interval();
        interval.span()
    }
}

/// The strand that a strand value and a strand character give together.
///
/// With neither, the strand is unspecified. With one of them, that one
/// counts, and a character has to denote a strand. With both, the character
/// has to denote the strand that the value gives.
pub open spec fn resolved_strand(strand: Option<Strand>, strand_char: Option<char>) -> Result<
    Strand,
    FeatureError,
> {
    match (strand, strand_char) {
        (None, None) => Err(FeatureError::UnspecifiedStrandError),
        (Some(given), None) => Ok(given),
        (None, Some(c)) => match strand_of_char(c) {
            Some(read) => Ok(read),
            None => Err(FeatureError::StrandCharError),
        },
        (Some(given), Some(c)) => match strand_of_char(c) {
            Some(read) => if read == given {
                Ok(given)
            } else {
                Err(FeatureError::ConflictingStrandError)
            },
            None => Err(FeatureError::StrandCharError),
        },
    }
}

/// Settles the strand of a feature from a strand value and a strand
/// character, either of which may be missing.
pub fn resolve_strand_input(strand: Option<Strand>, strand_char: Option<char>) -> (r: Result<
    Strand,
    FeatureError,
>)
    ensures
        r == resolved_strand(strand, strand_char),
{
    match (strand, strand_char) {
        (None, None) => Err(FeatureError::UnspecifiedStrandError),
        (Some(given), None) => Ok(given),
        (None, Some(c)) => match Strand::from_char(c) {
            Some(read) => Ok(read),
            None => Err(FeatureError::StrandCharError),
        },
        (Some(given), Some(c)) => match Strand::from_char(c) {
            Some(read) => if read == given {
                Ok(given)
            } else {
                Err(FeatureError::ConflictingStrandError)
            },
            None => Err(FeatureError::StrandCharError),
        },
    }
}

/// The interval `[start, end)`, or `IntervalError` when `start > end`.
pub fn coords_to_interval(start: u64, end: u64) -> (r: Result<Interval, FeatureError>)
    ensures
        match r {
            Ok(iv) => start <= end && iv.start() == start && iv.end() == end,
            Err(e) => start > end && e == FeatureError::IntervalError,
        },
{
    Interval::new(start, end)
}

/// A feature of a transcript, as a value of the model.
pub struct FeatureView {
    pub kind: TxFeature,
    pub seq_name: Seq<char>,
    pub start: u64,
    pub end: u64,
    pub strand: Strand,
    pub attributes: Map<Seq<char>, Seq<char>>,
}

/// A feature of a transcript: an exon, an untranslated region, a stretch of
/// coding sequence or a piece of a codon.
#[derive(Debug)]
pub struct TranscriptFeature {
    kind: TxFeature,
    seq_name: String,
    interval: Interval,
    strand: Strand,
    attributes: Attributes,
}

impl View for TranscriptFeature {
    type V = FeatureView;

    closed spec fn view(&self) -> FeatureView {
        FeatureView {
            kind: self.kind,
            seq_name: self.seq_name@,
            start: self.interval.start(),
            end: self.interval.end(),
            strand: self.strand,
            attributes: self.attributes@,
        }
    }
}

impl TranscriptFeature {
    /// The kind of the feature.
    pub fn kind(&self) -> (r: &TxFeature)
        ensures
            *r == self@.kind,
    {
        &self.kind
    }

    /// A feature without attributes over `[start, end)`.
    pub(crate) fn plain(kind: TxFeature, seq_name: &String, start: u64, end: u64, strand: Strand) -> (r:
        TranscriptFeature)
        requires
            start <= end,
        ensures
            r@ == (FeatureView {
                kind,
                seq_name: seq_name@,
                start,
                end,
                strand,
                attributes: Map::empty(),
            }),
    {
        TranscriptFeature {
            kind,
            seq_name: seq_name.clone(),
            interval: Interval::ordered_pair(start, end),
            strand,
            attributes: Attributes::new(),
        }
    }
}

impl Annotation for TranscriptFeature {
    open spec fn seq_name_view(&self) -> Seq<char> {
        self@.seq_name
    }

    open spec fn bounds(&self) -> (u64, u64) {
        (self@.start, self@.end)
    }

    open spec fn attributes_view(&self) -> Map<Seq<char>, Seq<char>> {
        self@.attributes
    }

    open spec fn strand_view(&self) -> Strand {
        self@.strand
    }

    fn seq_name(&self) -> (r: &str) {
        self.seq_name.as_str()
    }

    fn interval(&self) -> (r: &Interval) {
        &self.interval
    }

    fn attributes(&self) -> (r: &Attributes) {
        &self.attributes
    }

    fn attribute(&self, key: &str) -> (r: Option<&str>) {
        match self.attributes.get(key) {
            Some(value) => Some(value.as_str()),
            None => None,
        }
    }

    fn strand(&self) -> (r: &Strand) {
        &self.strand
    }
}

/// What a feature is to be built from.
#[derive(Debug)]
pub struct TxFeatureBuilder {
    pub seq_name: String,
    pub start: u64,
    pub end: u64,
    pub attributes: Attributes,
    pub kind: TxFeature,
    pub strand: Option<Strand>,
    pub strand_char: Option<char>,
}

impl TxFeatureBuilder {
    /// The feature that the builder gives, or the reason why it gives none:
    /// the range is checked first, the strand second.
    pub open spec fn outcome(self) -> Result<FeatureView, FeatureError> {
        if self.start > self.end {
            Err(FeatureError::IntervalError)
        } else {
            match resolved_strand(self.strand, self.strand_char) {
                Err(e) => Err(e),
                Ok(strand) => Ok(
                    FeatureView {
                        kind: self.kind,
                        seq_name: self.seq_name@,
                        start: self.start,
                        end: self.end,
                        strand,
                        attributes: self.attributes@,
                    },
                ),
            }
        }
    }

    /// A builder for a feature of any kind on `seq_name` over `[start, end)`,
    /// without strand and without attributes.
    pub fn new(seq_name: &str, start: u64, end: u64) -> (r: TxFeatureBuilder)
        ensures
            r.seq_name@ == seq_name@,
            r.start == start,
            r.end == end,
            r.attributes@ == Map::<Seq<char>, Seq<char>>::empty(),
            r.kind == TxFeature::Any,
            r.strand == None::<Strand>,
            r.strand_char == None::<char>,
    {
        TxFeatureBuilder {
            seq_name: String::from_str(seq_name),
            start,
            end,
            kind: TxFeature::Any,
            attributes: Attributes::new(),
            strand: None,
            strand_char: None,
        }
    }

    /// Sets the kind.
    pub fn kind(self, kind: TxFeature) -> (r: TxFeatureBuilder)
        ensures
            r == (TxFeatureBuilder { kind, ..self }),
    {
        let mut next = self;
        next.kind = kind;
        next
    }

    /// Sets the strand value.
    pub fn strand(self, strand: Strand) -> (r: TxFeatureBuilder)
        ensures
            r == (TxFeatureBuilder { strand: Some(strand), ..self }),
    {
        let mut next = self;
        next.strand = Some(strand);
        next
    }

    /// Sets the strand character.
    pub fn strand_char(self, strand_char: char) -> (r: TxFeatureBuilder)
        ensures
            r == (TxFeatureBuilder { strand_char: Some(strand_char), ..self }),
    {
        let mut next = self;
        next.strand_char = Some(strand_char);
        next
    }

    /// Puts `value` under the attribute `key`.
    pub fn attribute(self, key: &str, value: &str) -> (r: TxFeatureBuilder)
        ensures
            r.attributes@ == self.attributes@.insert(key@, value@),
            r == (TxFeatureBuilder { attributes: r.attributes, ..self }),
    {
        let mut next = self;
        next.attributes.insert(String::from_str(key), String::from_str(value));
        next
    }

    /// Builds the feature: the range is checked first, the strand second.
    pub fn build(self) -> (r: Result<TranscriptFeature, FeatureError>)
        ensures
            match r {
                Ok(feature) => self.outcome() == Ok::<FeatureView, FeatureError>(feature@),
                Err(e) => self.outcome() == Err::<FeatureView, FeatureError>(e),
            },
    {
        let interval = coords_to_interval(self.start, self.end)?;
        let strand = resolve_strand_input(self.strand, self.strand_char)?;
        Ok(
            TranscriptFeature {
                seq_name: self.seq_name,
                kind: self.kind,
                interval,
                strand,
                attributes: self.attributes,
            },
        )
    }
}

} // verus!
