use genomic_fx::error::FeatureError;
use genomic_fx::feature::Annotation;
use genomic_fx::gene::{Gene, GeneBuilder};
use genomic_fx::strand::Strand;
use genomic_fx::transcript::{Transcript, TranscriptBuilder};

fn transcript(seq_name: &str, strand: Strand, start: u64, end: u64) -> Transcript {
    TranscriptBuilder::new(seq_name, start, end)
        .strand(strand)
        .exon_and_cds_coords(vec![(start, end)], None)
        .build()
        .unwrap()
}

fn ids(gene: &Gene) -> Vec<String> {
    gene.transcripts().keys().cloned().collect()
}

#[test]
fn gene_keeps_its_transcripts_in_the_order_given() {
    let gene = GeneBuilder::new("chr1", 10, 90)
        .id("G")
        .strand(Strand::Forward)
        .attribute("source", "test")
        .transcript("b", transcript("chr1", Strand::Forward, 20, 30))
        .transcript("a", transcript("chr1", Strand::Forward, 10, 50))
        .transcript("c", transcript("chr1", Strand::Forward, 40, 90))
        .build()
        .unwrap();
    assert_eq!(gene.id(), Some("G"));
    assert_eq!(gene.seq_name(), "chr1");
    assert_eq!(gene.strand(), &Strand::Forward);
    assert_eq!((gene.interval().start(), gene.interval().end()), (10, 90));
    assert_eq!(gene.span(), 80);
    assert_eq!(gene.attribute("source"), Some("test"));
    assert_eq!(gene.attributes().len(), 1);
    assert_eq!(ids(&gene), vec!["b", "a", "c"]);
    assert_eq!(gene.transcripts().len(), 3);
    let starts: Vec<u64> = gene.transcript_list().iter().map(|t| t.interval().start()).collect();
    assert_eq!(starts, vec![20, 10, 40]);
    assert_eq!(gene.transcript("a").map(|t| t.interval().end()), Some(50));
    assert!(gene.transcript("d").is_none());
}

#[test]
fn gene_bounds_come_from_its_transcripts() {
    let gene = GeneBuilder::spanning("chr1")
        .strand_char('-')
        .transcript("x", transcript("chr1", Strand::Reverse, 300, 400))
        .transcript("y", transcript("chr1", Strand::Reverse, 100, 350))
        .transcript("z", transcript("chr1", Strand::Reverse, 200, 500))
        .build()
        .unwrap();
    assert_eq!((gene.interval().start(), gene.interval().end()), (100, 500));
    assert!(gene.id().is_none());
}

#[test]
fn given_gene_bounds_stand() {
    let gene = GeneBuilder::new("chr1", 0, 1000)
        .strand(Strand::Forward)
        .transcripts(vec![(String::from("x"), transcript("chr1", Strand::Forward, 300, 400))])
        .build()
        .unwrap();
    assert_eq!((gene.interval().start(), gene.interval().end()), (0, 1000));
}

#[test]
fn gene_without_transcripts() {
    let gene = GeneBuilder::new("chr1", 5, 6).strand(Strand::Unknown).build().unwrap();
    assert_eq!(gene.transcripts().len(), 0);
    assert!(gene.transcript_list().is_empty());
    let open = GeneBuilder::spanning("chr1").strand(Strand::Unknown).build();
    assert_eq!(open.err(), Some(FeatureError::IntervalError));
}

#[test]
fn gene_failures() {
    let reversed = GeneBuilder::new("chr1", 9, 3).strand(Strand::Forward).build();
    assert_eq!(reversed.err(), Some(FeatureError::IntervalError));

    let no_strand = GeneBuilder::new("chr1", 3, 9).build();
    assert_eq!(no_strand.err(), Some(FeatureError::UnspecifiedStrandError));

    let bad_char = GeneBuilder::new("chr1", 3, 9).strand_char('f').build();
    assert_eq!(bad_char.err(), Some(FeatureError::StrandCharError));

    let conflict = GeneBuilder::new("chr1", 3, 9).strand(Strand::Forward).strand_char('-').build();
    assert_eq!(conflict.err(), Some(FeatureError::ConflictingStrandError));

    let other_sequence = GeneBuilder::new("chr1", 0, 100)
        .strand(Strand::Forward)
        .transcript("x", transcript("chr2", Strand::Forward, 10, 20))
        .build();
    assert_eq!(other_sequence.err(), Some(FeatureError::SubFeatureIntervalError));

    let other_strand = GeneBuilder::new("chr1", 0, 100)
        .strand(Strand::Forward)
        .transcript("x", transcript("chr1", Strand::Reverse, 10, 20))
        .build();
    assert_eq!(other_strand.err(), Some(FeatureError::ConflictingStrandError));

    let twice = GeneBuilder::new("chr1", 0, 100)
        .strand(Strand::Forward)
        .transcript("x", transcript("chr1", Strand::Forward, 10, 20))
        .transcript("y", transcript("chr1", Strand::Forward, 30, 40))
        .transcript("x", transcript("chr1", Strand::Forward, 50, 60))
        .build();
    assert_eq!(twice.err(), Some(FeatureError::SubFeatureIntervalError));
}

#[test]
fn the_first_unfit_transcript_decides() {
    let gene = GeneBuilder::new("chr1", 0, 100)
        .strand(Strand::Forward)
        .transcript("x", transcript("chr1", Strand::Reverse, 10, 20))
        .transcript("y", transcript("chr2", Strand::Forward, 30, 40))
        .build();
    assert_eq!(gene.err(), Some(FeatureError::ConflictingStrandError));
    let gene = GeneBuilder::new("chr1", 0, 100)
        .strand(Strand::Forward)
        .transcript("x", transcript("chr2", Strand::Reverse, 10, 20))
        .build();
    assert_eq!(gene.err(), Some(FeatureError::SubFeatureIntervalError));
}
