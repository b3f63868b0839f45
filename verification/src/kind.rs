//! Kinds of transcript sub-features.

use vstd::prelude::*;
use crate::strand::Strand;

verus! {

/// What a sub-feature of a transcript is.
#[derive(Clone, Copy, Debug, PartialEq, Eq, Structural)]
pub enum TxFeature {
    Exon,
    UTR,
    UTR5,
    UTR3,
    CDS,
    StartCodon,
    StopCodon,
    Any,
}

impl TxFeature {
    /// Whether the kind is one of the three untranslated kinds.
    pub open spec fn is_utr(self) -> bool {
        self == TxFeature::UTR || self == TxFeature::UTR5 || self == TxFeature::UTR3
    }
}

/// The untranslated kind below the coding region: 5' on the forward strand,
/// 3' on the reverse strand, unqualified where the strand is unknown.
pub open spec fn lower_utr(strand: Strand) -> TxFeature {
    match strand {
        Strand::Forward => TxFeature::UTR5,
        Strand::Reverse => TxFeature::UTR3,
        Strand::Unknown => TxFeature::UTR,
    }
}

/// The untranslated kind above the coding region.
pub open spec fn upper_utr(strand: Strand) -> TxFeature {
    match strand {
        Strand::Forward => TxFeature::UTR3,
        Strand::Reverse => TxFeature::UTR5,
        Strand::Unknown => TxFeature::UTR,
    }
}

/// The codon at the lower bound of the coding region: the start codon on the
/// forward strand, the stop codon on the reverse strand, none where the
/// strand is unknown.
pub open spec fn lower_codon(strand: Strand) -> Option<TxFeature> {
    match strand {
        Strand::Forward => Some(TxFeature::StartCodon),
        Strand::Reverse => Some(TxFeature::StopCodon),
        Strand::Unknown => None,
    }
}

/// The codon at the upper bound of the coding region.
pub open spec fn upper_codon(strand: Strand) -> Option<TxFeature> {
    match strand {
        Strand::Forward => Some(TxFeature::StopCodon),
        Strand::Reverse => Some(TxFeature::StartCodon),
        Strand::Unknown => None,
    }
}

pub(crate) fn lower_utr_of(strand: Strand) -> (k: TxFeature)
    ensures
        k == lower_utr(strand),
{
    match strand {
        Strand::Forward => TxFeature::UTR5,
        Strand::Reverse => TxFeature::UTR3,
        Strand::Unknown => TxFeature::UTR,
    }
}

pub(crate) fn upper_utr_of(strand: Strand) -> (k: TxFeature)
    ensures
        k == upper_utr(strand),
{
    match strand {
        Strand::Forward => TxFeature::UTR3,
        Strand::Reverse => TxFeature::UTR5,
        Strand::Unknown => TxFeature::UTR,
    }
}

pub(crate) fn lower_codon_of(strand: Strand) -> (k: Option<TxFeature>)
    ensures
        k == lower_codon(strand),
{
    match strand {
        Strand::Forward => Some(TxFeature::StartCodon),
        Strand::Reverse => Some(TxFeature::StopCodon),
        Strand::Unknown => None,
    }
}

pub(crate) fn upper_codon_of(strand: Strand) -> (k: Option<TxFeature>)
    ensures
        k == upper_codon(strand),
{
    match strand {
        Strand::Forward => Some(TxFeature::StopCodon),
        Strand::Reverse => Some(TxFeature::StartCodon),
        Strand::Unknown => None,
    }
}

} // verus!
