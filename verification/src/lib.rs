//! Gene, transcript and exon annotations over half-open genomic intervals,
//! with inference of untranslated regions, coding sequence and codons from
//! exon and coding coordinates.

pub mod attributes;
pub mod coverage;
pub mod error;
pub mod feature;
pub mod gene;
pub mod interval;
pub mod kind;
pub mod layout;
pub mod refflat;
pub mod strand;
pub mod text;
pub mod transcript;

pub use crate::attributes::Attributes;
pub use crate::error::{Error, FeatureError, RefFlatError};
pub use crate::feature::{
    coords_to_interval, resolve_strand_input, Annotation, TranscriptFeature, TxFeatureBuilder,
};
pub use crate::gene::{Gene, GeneBuilder};
pub use crate::interval::Interval;
pub use crate::kind::TxFeature;
pub use crate::layout::{infer_layout, Piece};
pub use crate::refflat::{
    coords_field, gene_records, group_genes, groupf, GeneGrouper, RecordResult, RefFlatRecord,
    RefFlatRow,
};
pub use crate::strand::Strand;
pub use crate::transcript::{
    infer_features, resolve_transcript_features, Transcript, TranscriptBuilder,
};
