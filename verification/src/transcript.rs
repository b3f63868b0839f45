//! Transcripts: a range on a sequence with an ordered list of sub-features,
//! given as they are or inferred from exon and coding coordinates.

use vstd::prelude::*;
use vstd::string::StringExecFns;
use crate::attributes::Attributes;
use crate::error::FeatureError;
use crate::feature::{
    coords_to_interval, resolve_strand_input, resolved_strand, Annotation, FeatureView,
    TranscriptFeature,
};
use crate::interval::Interval;
use crate::kind::TxFeature;
use crate::coverage::exon_bounds;
use crate::layout::{infer_layout, layout, pieces_ordered, Piece};
use crate::strand::Strand;

verus! {

/// The features of a list, as values of the model.
pub open spec fn features_view(features: Seq<TranscriptFeature>) -> Seq<FeatureView> {
    features.map_values(|f: TranscriptFeature| f@)
}

/// The feature that a piece of a layout stands for: on the transcript's
/// sequence and strand, without attributes.
pub open spec fn feature_of_piece(piece: Piece, seq_name: Seq<char>, strand: Strand) -> FeatureView {
    FeatureView {
        kind: piece.kind,
        seq_name,
        start: piece.start,
        end: piece.end,
        strand,
        attributes: Map::empty(),
    }
}

/// The features that the pieces of a layout stand for, in order.
pub open spec fn features_of_layout(pieces: Seq<Piece>, seq_name: Seq<char>, strand: Strand) -> Seq<
    FeatureView,
> {
    pieces.map_values(|p: Piece| feature_of_piece(p, seq_name, strand))
}

/// The sub-features inferred for a transcript over `[start, end)`, or the
/// reason why there are none.
pub open spec fn inferred(
    seq_name: Seq<char>,
    start: u64,
    end: u64,
    strand: Strand,
    exons: Seq<(u64, u64)>,
    coding: Option<(u64, u64)>,
) -> Result<Seq<FeatureView>, FeatureError> {
    match layout(exons, coding, start, end, strand) {
        Ok(pieces) => Ok(features_of_layout(pieces, seq_name, strand)),
        Err(e) => Err(e),
    }
}

/// Infers the sub-features of a transcript from the bounds of its exons and
/// of its coding region.
///
/// The exons are taken in the order given. Without a coding region, or with
/// an empty one, each exon gives one exon feature. Otherwise each exon gives
/// its exon feature and, by where it lies against the coding region, its
/// untranslated, coding and codon features.
pub fn infer_features(
    transcript_seqname: &String,
    transcript_interval: &Interval,
    transcript_strand: &Strand,
    exon_coords: &Vec<(u64, u64)>,
    cds_span: Option<(u64, u64)>,
) -> (r: Result<Vec<TranscriptFeature>, FeatureError>)
    ensures
        match r {
            Ok(features) => inferred(
                transcript_seqname@,
                transcript_interval.start(),
                transcript_interval.end(),
                *transcript_strand,
                exon_coords@,
                cds_span,
            ) == Ok::<Seq<FeatureView>, FeatureError>(features_view(features@)),
            Err(e) => inferred(
                transcript_seqname@,
                transcript_interval.start(),
                transcript_interval.end(),
                *transcript_strand,
                exon_coords@,
                cds_span,
            ) == Err::<Seq<FeatureView>, FeatureError>(e),
        },
{
    let strand = *transcript_strand;
    let pieces = infer_layout(
        exon_coords,
        cds_span,
        transcript_interval.start(),
        transcript_interval.end(),
        strand,
    )?;
    let mut features: Vec<TranscriptFeature> = Vec::new();
    let mut i: usize = 0;
    while i < pieces.len()
        invariant
            0 <= i <= pieces.len(),
            pieces_ordered(pieces@),
            features.len() == i,
            features_view(features@) == features_of_layout(
                pieces@.take(i as int),
                transcript_seqname@,
                strand,
            ),
        decreases pieces.len() - i,
    {
        let piece = pieces[i];
        let ghost before = features@;
        features.push(
            TranscriptFeature::plain(piece.kind, transcript_seqname, piece.start, piece.end, strand),
        );
        proof {
            let target = features_of_layout(pieces@.take(i + 1), transcript_seqname@, strand);
            let earlier = features_of_layout(pieces@.take(i as int), transcript_seqname@, strand);
            assert forall|j: int| 0 <= j < target.len() implies features_view(features@)[j]
                == target[j] by {
                if j < i {
                    assert(features@[j] == before[j]);
                    assert(features_view(before)[j] == earlier[j]);
                    assert(pieces@.take(i as int)[j] == pieces@.take(i + 1)[j]);
                }
            }
            assert(features_view(features@) =~= target);
        }
        i += 1;
    }
    proof {
        assert(pieces@.take(pieces.len() as int) =~= pieces@);
    }
    Ok(features)
}

/// The sub-features of a transcript under construction.
///
/// Features that were given are taken as they are. Without them, exon
/// coordinates give inferred features. With neither, a coding region alone
/// leaves the transcript incomplete, and nothing at all gives no features.
pub open spec fn resolved_features(
    seq_name: Seq<char>,
    start: u64,
    end: u64,
    strand: Strand,
    features: Option<Seq<FeatureView>>,
    exons: Option<Seq<(u64, u64)>>,
    coding: Option<(u64, u64)>,
) -> Result<Seq<FeatureView>, FeatureError> {
    match (features, exons, coding) {
        (Some(given), _, _) => Ok(given),
        (None, Some(coords), _) => inferred(seq_name, start, end, strand, coords, coding),
        (None, None, Some(_)) => Err(FeatureError::IncompleteTranscriptError),
        (None, None, None) => Ok(Seq::empty()),
    }
}

/// The given features, as values of the model.
pub open spec fn given_features_view(features: Option<Vec<TranscriptFeature>>) -> Option<
    Seq<FeatureView>,
> {
    match features {
        Some(list) => Some(features_view(list@)),
        None => None,
    }
}

/// The given exon coordinates, as a sequence.
pub open spec fn given_coords_view(coords: Option<Vec<(u64, u64)>>) -> Option<Seq<(u64, u64)>> {
    match coords {
        Some(list) => Some(list@),
        None => None,
    }
}

/// Settles the sub-features of a transcript from what its builder was given.
pub fn resolve_transcript_features(
    transcript_seqname: &String,
    transcript_interval: &Interval,
    transcript_strand: &Strand,
    features: Option<Vec<TranscriptFeature>>,
    exon_coords: Option<Vec<(u64, u64)>>,
    cds_coord: Option<(u64, u64)>,
) -> (r: Result<Vec<TranscriptFeature>, FeatureError>)
    ensures
        match r {
            Ok(list) => resolved_features(
                transcript_seqname@,
                transcript_interval.start(),
                transcript_interval.end(),
                *transcript_strand,
                given_features_view(features),
                given_coords_view(exon_coords),
                cds_coord,
            ) == Ok::<Seq<FeatureView>, FeatureError>(features_view(list@)),
            Err(e) => resolved_features(
                transcript_seqname@,
                transcript_interval.start(),
                transcript_interval.end(),
                *transcript_strand,
                given_features_view(features),
                given_coords_view(exon_coords),
                cds_coord,
            ) == Err::<Seq<FeatureView>, FeatureError>(e),
        },
{
    match features {
        Some(given) => Ok(given),
        None => match exon_coords {
            Some(coords) => infer_features(
                transcript_seqname,
                transcript_interval,
                transcript_strand,
                &coords,
                cds_coord,
            ),
            None => match cds_coord {
                Some(_) => Err(FeatureError::IncompleteTranscriptError),
                None => {
                    let none: Vec<TranscriptFeature> = Vec::new();
                    proof {
                        assert(features_view(none@) =~= Seq::<FeatureView>::empty());
                    }
                    Ok(none)
                },
            },
        },
    }
}

/// The exon features of a list, in order.
pub open spec fn exon_features_of(features: Seq<FeatureView>) -> Seq<FeatureView>
    decreases features.len(),
{
    if features.len() == 0 {
        Seq::empty()
    } else if features.last().kind == TxFeature::Exon {
        exon_features_of(features.drop_last()).push(features.last())
    } else {
        exon_features_of(features.drop_last())
    }
}

/// The bounds of the exon features of a list, in order.
pub open spec fn exon_coords_of(features: Seq<FeatureView>) -> Seq<(u64, u64)>
    decreases features.len(),
{
    if features.len() == 0 {
        Seq::empty()
    } else if features.last().kind == TxFeature::Exon {
        exon_coords_of(features.drop_last()).push((features.last().start, features.last().end))
    } else {
        exon_coords_of(features.drop_last())
    }
}

/// The exon features that stand for a layout have the bounds of its exon
/// pieces.
pub proof fn exon_coords_of_layout(pieces: Seq<Piece>, seq_name: Seq<char>, strand: Strand)
    ensures
        exon_coords_of(features_of_layout(pieces, seq_name, strand)) == exon_bounds(pieces),
    decreases pieces.len(),
{
    if pieces.len() > 0 {
        exon_coords_of_layout(pieces.drop_last(), seq_name, strand);
        assert(features_of_layout(pieces, seq_name, strand).drop_last() =~= features_of_layout(
            pieces.drop_last(),
            seq_name,
            strand,
        ));
    }
}

/// The range from the lowest start to the highest end of the coding-sequence
/// features of a list, if it has any.
pub open spec fn coding_span_of(features: Seq<FeatureView>) -> Option<(u64, u64)>
    decreases features.len(),
{
    if features.len() == 0 {
        None
    } else if features.last().kind == TxFeature::CDS {
        match coding_span_of(features.drop_last()) {
            None => Some((features.last().start, features.last().end)),
            Some((lo, hi)) => Some(
                (
                    if features.last().start < lo {
                        features.last().start
                    } else {
                        lo
                    },
                    if features.last().end > hi {
                        features.last().end
                    } else {
                        hi
                    },
                ),
            ),
        }
    } else {
        coding_span_of(features.drop_last())
    }
}

/// A transcript, as a value of the model.
pub struct TranscriptView {
    pub id: Option<Seq<char>>,
    pub seq_name: Seq<char>,
    pub start: u64,
    pub end: u64,
    pub strand: Strand,
    pub attributes: Map<Seq<char>, Seq<char>>,
    /// The bounds of the coding region, if the transcript has one.
    pub coding: Option<(u64, u64)>,
    pub features: Seq<FeatureView>,
}

/// The text of an optional name.
pub open spec fn name_view(name: Option<String>) -> Option<Seq<char>> {
    match name {
        Some(text) => Some(text@),
        None => None,
    }
}

/// A transcript: a range on a strand of a sequence with its sub-features in
/// order.
#[derive(Debug)]
pub struct Transcript {
    id: Option<String>,
    seq_name: String,
    interval: Interval,
    strand: Strand,
    attributes: Attributes,
    coding: Option<(u64, u64)>,
    features: Vec<TranscriptFeature>,
}

impl View for Transcript {
    type V = TranscriptView;

    closed spec fn view(&self) -> TranscriptView {
        TranscriptView {
            id: name_view(self.id),
            seq_name: self.seq_name@,
            start: self.interval.start(),
            end: self.interval.end(),
            strand: self.strand,
            attributes: self.attributes@,
            coding: self.coding,
            features: features_view(self.features@),
        }
    }
}

impl Transcript {
    /// The identifier of the transcript, if it has one.
    pub fn id(&self) -> (r: Option<&str>)
        ensures
            match r {
                Some(text) => self@.id == Some(text@),
                None => self@.id.is_none(),
            },
    {
        match &self.id {
            Some(text) => Some(text.as_str()),
            None => None,
        }
    }

    /// The sub-features of the transcript, in order.
    pub fn features(&self) -> (r: &Vec<TranscriptFeature>)
        ensures
            features_view(r@) == self@.features,
    {
        &self.features
    }

    /// The bounds of the exons of the transcript, in order.
    pub fn exon_coords(&self) -> (r: Vec<(u64, u64)>)
        ensures
            r@ == exon_coords_of(self@.features),
    {
        let mut coords: Vec<(u64, u64)> = Vec::new();
        let mut i: usize = 0;
        while i < self.features.len()
            invariant
                0 <= i <= self.features.len(),
                coords@ == exon_coords_of(features_view(self.features@).take(i as int)),
            decreases self.features.len() - i,
        {
            let ghost views = features_view(self.features@);
            proof {
                assert(views.take(i + 1).drop_last() =~= views.take(i as int));
                assert(views.take(i + 1).last() == self.features@[i as int]@);
            }
            let feature = &self.features[i];
            match feature.kind() {
                TxFeature::Exon => {
                    let interval = feature.interval();
                    coords.push((interval.start(), interval.end()));
                },
                _ => {},
            }
            i += 1;
        }
        proof {
            let views = features_view(self.features@);
            assert(views.take(self.features.len() as int) =~= views);
        }
        coords
    }

    /// The exon features of the transcript, in order.
    pub fn exons(&self) -> (r: Vec<&TranscriptFeature>)
        ensures
            r@.len() == exon_features_of(self@.features).len(),
            forall|i: int|
                0 <= i < r@.len() ==> (#[trigger] r@[i])@ == exon_features_of(self@.features)[i],
    {
        let mut exons: Vec<&TranscriptFeature> = Vec::new();
        let mut i: usize = 0;
        while i < self.features.len()
            invariant
                0 <= i <= self.features.len(),
                exons@.len() == exon_features_of(
                    features_view(self.features@).take(i as int),
                ).len(),
                forall|j: int|
                    0 <= j < exons@.len() ==> (#[trigger] exons@[j])@ == exon_features_of(
                        features_view(self.features@).take(i as int),
                    )[j],
            decreases self.features.len() - i,
        {
            let ghost views = features_view(self.features@);
            proof {
                assert(views.take(i + 1).drop_last() =~= views.take(i as int));
                assert(views.take(i + 1).last() == self.features@[i as int]@);
            }
            let feature = &self.features[i];
            match feature.kind() {
                TxFeature::Exon => {
                    exons.push(feature);
                },
                _ => {},
            }
            i += 1;
        }
        proof {
            let views = features_view(self.features@);
            assert(views.take(self.features.len() as int) =~= views);
        }
        exons
    }

    /// The number of exons of the transcript.
    pub fn len(&self) -> (r: usize)
        ensures
            r == exon_coords_of(self@.features).len(),
    {
        self.exon_coords().len()
    }

    /// The bounds of the coding region of the transcript, if it has one: the
    /// region that it was built with, or else the range from the lowest start
    /// to the highest end of the coding sequence among the features that it
    /// was given.
    pub fn coding_coord(&self) -> (r: Option<(u64, u64)>)
        ensures
            r == self@.coding,
    {
        self.coding
    }
}

/// The range from the lowest start to the highest end of the coding-sequence
/// features of a list, if it has any.
fn span_of_coding(features: &Vec<TranscriptFeature>) -> (r: Option<(u64, u64)>)
    ensures
        r == coding_span_of(features_view(features@)),
{
    let mut span: Option<(u64, u64)> = None;
    let mut i: usize = 0;
    while i < features.len()
        invariant
            0 <= i <= features.len(),
            span == coding_span_of(features_view(features@).take(i as int)),
        decreases features.len() - i,
    {
        let ghost views = features_view(features@);
        proof {
            assert(views.take(i + 1).drop_last() =~= views.take(i as int));
            assert(views.take(i + 1).last() == features@[i as int]@);
        }
        let feature = &features[i];
        match feature.kind() {
            TxFeature::CDS => {
                let interval = feature.interval();
                let (start, end) = (interval.start(), interval.end());
                span = match span {
                    None => Some((start, end)),
                    Some((lo, hi)) => Some(
                        (
                            if start < lo {
                                start
                            } else {
                                lo
                            },
                            if end > hi {
                                end
                            } else {
                                hi
                            },
                        ),
                    ),
                };
            },
            _ => {},
        }
        i += 1;
    }
    proof {
        let views = features_view(features@);
        assert(views.take(features.len() as int) =~= views);
    }
    span
}

impl Annotation for Transcript {
    open spec fn seq_name_view(&self) -> Seq<char> {
        self@.seq_name
    }

    open spec fn bounds(&self) -> (u64, u64) {
        (self@.start, self@.end)
    }

    open spec fn attributes_view(&self) -> Map<Seq<char>, Seq<char>> {
        self@.attributes
    }

    open spec fn strand_view(&self) -> Strand {
        self@.strand
    }

    fn seq_name(&self) -> (r: &str) {
        self.seq_name.as_str()
    }

    fn interval(&self) -> (r: &Interval) {
        &self.interval
    }

    fn attributes(&self) -> (r: &Attributes) {
        &self.attributes
    }

    fn attribute(&self, key: &str) -> (r: Option<&str>) {
        match self.attributes.get(key) {
            Some(value) => Some(value.as_str()),
            None => None,
        }
    }

    fn strand(&self) -> (r: &Strand) {
        &self.strand
    }
}

/// The coding region of a transcript under construction.
///
/// Features that were given have the coding region that their coding
/// sequence spans. Without them, exon coordinates come with the coding region
/// given beside them, an empty one counting as none.
pub open spec fn resolved_coding(
    features: Option<Seq<FeatureView>>,
    exons: Option<Seq<(u64, u64)>>,
    coding: Option<(u64, u64)>,
) -> Option<(u64, u64)> {
    match (features, exons, coding) {
        (Some(given), _, _) => coding_span_of(given),
        (None, Some(_), Some((cs, ce))) => if cs < ce {
            Some((cs, ce))
        } else {
            None
        },
        _ => None,
    }
}

/// The transcript that a builder with these settings gives, or the reason
/// why it gives none: the range is checked first, the strand second, the
/// sub-features last.
pub open spec fn transcript_outcome(
    id: Option<Seq<char>>,
    seq_name: Seq<char>,
    start: u64,
    end: u64,
    strand: Option<Strand>,
    strand_char: Option<char>,
    attributes: Map<Seq<char>, Seq<char>>,
    features: Option<Seq<FeatureView>>,
    exons: Option<Seq<(u64, u64)>>,
    coding: Option<(u64, u64)>,
) -> Result<TranscriptView, FeatureError> {
    if start > end {
        Err(FeatureError::IntervalError)
    } else {
        match resolved_strand(strand, strand_char) {
            Err(e) => Err(e),
            Ok(settled) => match resolved_features(
                seq_name,
                start,
                end,
                settled,
                features,
                exons,
                coding,
            ) {
                Err(e) => Err(e),
                Ok(list) => Ok(
                    TranscriptView {
                        id,
                        seq_name,
                        start,
                        end,
                        strand: settled,
                        attributes,
                        coding: resolved_coding(features, exons, coding),
                        features: list,
                    },
                ),
            },
        }
    }
}

/// What a transcript is to be built from.
#[derive(Debug)]
pub struct TranscriptBuilder {
    pub seq_name: String,
    pub start: u64,
    pub end: u64,
    pub id: Option<String>,
    pub strand: Option<Strand>,
    pub strand_char: Option<char>,
    /// Sub-features that are taken as they are.
    pub features: Option<Vec<TranscriptFeature>>,
    /// Exon bounds from which sub-features are inferred.
    pub exon_coords: Option<Vec<(u64, u64)>>,
    /// The bounds of the coding region, for the inference.
    pub cds_coord: Option<(u64, u64)>,
    pub attributes: Attributes,
}

impl TranscriptBuilder {
    /// The transcript that the builder gives, or the reason why it gives none.
    pub open spec fn outcome(self) -> Result<TranscriptView, FeatureError> {
        transcript_outcome(
            name_view(self.id),
            self.seq_name@,
            self.start,
            self.end,
            self.strand,
            self.strand_char,
            self.attributes@,
            given_features_view(self.features),
            given_coords_view(self.exon_coords),
            self.cds_coord,
        )
    }

    /// A builder for a transcript on `seq_name` over `[start, end)` with
    /// nothing else set.
    pub fn new(seq_name: &str, start: u64, end: u64) -> (r: TranscriptBuilder)
        ensures
            r.seq_name@ == seq_name@,
            r.start == start,
            r.end == end,
            r.id.is_none(),
            r.strand.is_none(),
            r.strand_char.is_none(),
            r.features.is_none(),
            r.exon_coords.is_none(),
            r.cds_coord.is_none(),
            r.attributes@ == Map::<Seq<char>, Seq<char>>::empty(),
    {
        TranscriptBuilder {
            seq_name: String::from_str(seq_name),
            start,
            end,
            id: None,
            strand: None,
            strand_char: None,
            features: None,
            exon_coords: None,
            cds_coord: None,
            attributes: Attributes::new(),
        }
    }

    /// Sets the identifier.
    pub fn id(self, id: &str) -> (r: TranscriptBuilder)
        ensures
            name_view(r.id) == Some(id@),
            r == (TranscriptBuilder { id: r.id, ..self }),
    {
        let mut next = self;
        next.id = Some(String::from_str(id));
        next
    }

    /// Sets the strand value.
    pub fn strand(self, strand: Strand) -> (r: TranscriptBuilder)
        ensures
            r == (TranscriptBuilder { strand: Some(strand), ..self }),
    {
        let mut next = self;
        next.strand = Some(strand);
        next
    }

    /// Sets the strand character.
    pub fn strand_char(self, strand_char: char) -> (r: TranscriptBuilder)
        ensures
            r == (TranscriptBuilder { strand_char: Some(strand_char), ..self }),
    {
        let mut next = self;
        next.strand_char = Some(strand_char);
        next
    }

    /// Puts `value` under the attribute `key`.
    pub fn attribute(self, key: &str, value: &str) -> (r: TranscriptBuilder)
        ensures
            r.attributes@ == self.attributes@.insert(key@, value@),
            r == (TranscriptBuilder { attributes: r.attributes, ..self }),
    {
        let mut next = self;
        next.attributes.insert(String::from_str(key), String::from_str(value));
        next
    }

    /// Gives sub-features that are to be taken as they are.
    pub fn features(self, features: Vec<TranscriptFeature>) -> (r: TranscriptBuilder)
        ensures
            r == (TranscriptBuilder { features: Some(features), ..self }),
    {
        let mut next = self;
        next.features = Some(features);
        next
    }

    /// Gives the bounds of the exons and of the coding region.
    pub fn exon_and_cds_coords(self, exon_coords: Vec<(u64, u64)>, cds_coord: Option<(u64, u64)>) -> (r:
        TranscriptBuilder)
        ensures
            r == (TranscriptBuilder { exon_coords: Some(exon_coords), cds_coord, ..self }),
    {
        let mut next = self;
        next.exon_coords = Some(exon_coords);
        next.cds_coord = cds_coord;
        next
    }

    /// Builds the transcript: the range is checked first, the strand second,
    /// the sub-features last.
    pub fn build(self) -> (r: Result<Transcript, FeatureError>)
        ensures
            match r {
                Ok(transcript) => self.outcome() == Ok::<TranscriptView, FeatureError>(
                    transcript@,
                ),
                Err(e) => self.outcome() == Err::<TranscriptView, FeatureError>(e),
            },
    {
        let interval = coords_to_interval(self.start, self.end)?;
        let strand = resolve_strand_input(self.strand, self.strand_char)?;
        let coding = match &self.features {
            Some(given) => span_of_coding(given),
            None => match (&self.exon_coords, self.cds_coord) {
                (Some(_), Some((cs, ce))) => if cs < ce {
                    Some((cs, ce))
                } else {
                    None
                },
                _ => None,
            },
        };
        let features = resolve_transcript_features(
            &self.seq_name,
            &interval,
            &strand,
            self.features,
            self.exon_coords,
            self.cds_coord,
        )?;
        Ok(
            Transcript {
                id: self.id,
                seq_name: self.seq_name,
                interval,
                strand,
                coding,
                features,
                attributes: self.attributes,
            },
        )
    }
}

} // verus!
