use genomic_fx::attributes::Attributes;
use genomic_fx::error::FeatureError;
use genomic_fx::feature::{resolve_strand_input, Annotation, TranscriptFeature, TxFeatureBuilder};
use genomic_fx::interval::Interval;
use genomic_fx::kind::TxFeature;
use genomic_fx::kind::TxFeature::{Exon, StartCodon, StopCodon, CDS, UTR, UTR3, UTR5};
use genomic_fx::layout::{infer_layout, Piece};
use genomic_fx::strand::Strand;
use genomic_fx::transcript::{infer_features, Transcript, TranscriptBuilder};

fn get_coords_by_feature(fxs: &Vec<TranscriptFeature>, kind: TxFeature) -> Vec<(u64, u64)> {
    fxs.iter()
        .filter(|fx| *fx.kind() == kind)
        .map(|fx| (fx.interval().start(), fx.interval().end()))
        .collect()
}

fn get_features(fxs: &Vec<TranscriptFeature>) -> Vec<TxFeature> {
    fxs.iter().map(|fx| *fx.kind()).collect()
}

fn three_exons() -> Vec<(u64, u64)> {
    vec![(100, 300), (400, 500), (700, 1000)]
}

fn build(strand: Strand, exons: Vec<(u64, u64)>, cds: Option<(u64, u64)>) -> Transcript {
    let start = exons.iter().map(|e| e.0).min().unwrap();
    let end = exons.iter().map(|e| e.1).max().unwrap();
    TranscriptBuilder::new("chrT", start, end)
        .strand(strand)
        .exon_and_cds_coords(exons, cds)
        .build()
        .unwrap()
}

#[test]
fn builder_from_coords() {
    let tm = TranscriptBuilder::new("chrT", 100, 1000)
        .strand(Strand::Forward)
        .exon_and_cds_coords(vec![(100, 300), (400, 500), (700, 1000)], None)
        .build();
    assert!(tm.is_ok(), "{:?}", tm);
    let t = tm.unwrap();
    let fxs = t.features();
    assert_eq!(fxs.iter().filter(|fx| *fx.kind() == Exon).count(), 3);
    assert_eq!(get_coords_by_feature(fxs, Exon), vec![(100, 300), (400, 500), (700, 1000)]);
}

#[test]
fn builder_from_coords_with_cds_fwd() {
    let tm = TranscriptBuilder::new("chrT", 100, 1000)
        .strand(Strand::Forward)
        .exon_and_cds_coords(vec![(100, 300), (400, 500), (700, 1000)], Some((200, 900)))
        .build();
    assert!(tm.is_ok(), "{:?}", tm);
    let t = tm.unwrap();
    let fxs = t.features();
    assert_eq!(
        get_features(fxs),
        vec![Exon, UTR5, StartCodon, CDS, Exon, CDS, Exon, CDS, StopCodon, UTR3]
    );
    assert_eq!(get_coords_by_feature(fxs, Exon), vec![(100, 300), (400, 500), (700, 1000)]);
    assert_eq!(get_coords_by_feature(fxs, UTR5), vec![(100, 200)]);
    assert_eq!(get_coords_by_feature(fxs, StartCodon), vec![(200, 203)]);
    assert_eq!(get_coords_by_feature(fxs, CDS), vec![(200, 300), (400, 500), (700, 900)]);
    assert_eq!(get_coords_by_feature(fxs, StopCodon), vec![(897, 900)]);
    assert_eq!(get_coords_by_feature(fxs, UTR3), vec![(900, 1000)]);
}

#[test]
fn builder_from_coords_with_cds_fwd_start_codon_at_end() {
    let tm = TranscriptBuilder::new("chrT", 100, 1000)
        .strand(Strand::Forward)
        .exon_and_cds_coords(vec![(100, 300), (400, 500), (700, 1000)], Some((297, 900)))
        .build();
    assert!(tm.is_ok(), "{:?}", tm);
    let t = tm.unwrap();
    let fxs = t.features();
    assert_eq!(
        get_features(fxs),
        vec![Exon, UTR5, StartCodon, CDS, Exon, CDS, Exon, CDS, StopCodon, UTR3]
    );
    assert_eq!(get_coords_by_feature(fxs, Exon), vec![(100, 300), (400, 500), (700, 1000)]);
    assert_eq!(get_coords_by_feature(fxs, UTR5), vec![(100, 297)]);
    assert_eq!(get_coords_by_feature(fxs, StartCodon), vec![(297, 300)]);
    assert_eq!(get_coords_by_feature(fxs, CDS), vec![(297, 300), (400, 500), (700, 900)]);
    assert_eq!(get_coords_by_feature(fxs, StopCodon), vec![(897, 900)]);
    assert_eq!(get_coords_by_feature(fxs, UTR3), vec![(900, 1000)]);
}

#[test]
fn builder_from_coords_with_cds_fwd_start_codon_split() {
    let tm = TranscriptBuilder::new("chrT", 100, 1000)
        .strand(Strand::Forward)
        .exon_and_cds_coords(vec![(100, 300), (400, 500), (700, 1000)], Some((299, 900)))
        .build();
    assert!(tm.is_ok(), "{:?}", tm);
    let t = tm.unwrap();
    let fxs = t.features();
    assert_eq!(
        get_features(fxs),
        vec![Exon, UTR5, StartCodon, CDS, Exon, StartCodon, CDS, Exon, CDS, StopCodon, UTR3]
    );
    assert_eq!(get_coords_by_feature(fxs, Exon), vec![(100, 300), (400, 500), (700, 1000)]);
    assert_eq!(get_coords_by_feature(fxs, UTR5), vec![(100, 299)]);
    assert_eq!(get_coords_by_feature(fxs, StartCodon), vec![(299, 300), (400, 402)]);
    assert_eq!(get_coords_by_feature(fxs, CDS), vec![(299, 300), (400, 500), (700, 900)]);
    assert_eq!(get_coords_by_feature(fxs, StopCodon), vec![(897, 900)]);
    assert_eq!(get_coords_by_feature(fxs, UTR3), vec![(900, 1000)]);
}

#[test]
fn builder_from_coords_with_cds_fwd_start_codon_at_start() {
    let tm = TranscriptBuilder::new("chrT", 100, 1000)
        .strand(Strand::Forward)
        .exon_and_cds_coords(vec![(100, 300), (400, 500), (700, 1000)], Some((400, 900)))
        .build();
    assert!(tm.is_ok(), "{:?}", tm);
    let t = tm.unwrap();
    let fxs = t.features();
    assert_eq!(
        get_features(fxs),
        vec![Exon, UTR5, Exon, StartCodon, CDS, Exon, CDS, StopCodon, UTR3]
    );
    assert_eq!(get_coords_by_feature(fxs, Exon), vec![(100, 300), (400, 500), (700, 1000)]);
    assert_eq!(get_coords_by_feature(fxs, UTR5), vec![(100, 300)]);
    assert_eq!(get_coords_by_feature(fxs, StartCodon), vec![(400, 403)]);
    assert_eq!(get_coords_by_feature(fxs, CDS), vec![(400, 500), (700, 900)]);
    assert_eq!(get_coords_by_feature(fxs, StopCodon), vec![(897, 900)]);
    assert_eq!(get_coords_by_feature(fxs, UTR3), vec![(900, 1000)]);
}

#[test]
fn builder_from_coords_with_cds_fwd_stop_codon_at_end() {
    let tm = TranscriptBuilder::new("chrT", 100, 1000)
        .strand(Strand::Forward)
        .exon_and_cds_coords(vec![(100, 300), (400, 500), (700, 1000)], Some((200, 500)))
        .build();
    assert!(tm.is_ok(), "{:?}", tm);
    let t = tm.unwrap();
    let fxs = t.features();
    assert_eq!(
        get_features(fxs),
        vec![Exon, UTR5, StartCodon, CDS, Exon, CDS, StopCodon, Exon, UTR3]
    );
    assert_eq!(get_coords_by_feature(fxs, Exon), vec![(100, 300), (400, 500), (700, 1000)]);
    assert_eq!(get_coords_by_feature(fxs, UTR5), vec![(100, 200)]);
    assert_eq!(get_coords_by_feature(fxs, StartCodon), vec![(200, 203)]);
    assert_eq!(get_coords_by_feature(fxs, CDS), vec![(200, 300), (400, 500)]);
    assert_eq!(get_coords_by_feature(fxs, StopCodon), vec![(497, 500)]);
    assert_eq!(get_coords_by_feature(fxs, UTR3), vec![(700, 1000)]);
}

#[test]
fn builder_from_coords_with_cds_fwd_stop_codon_split() {
    let tm = TranscriptBuilder::new("chrT", 100, 1000)
        .strand(Strand::Forward)
        .exon_and_cds_coords(vec![(100, 300), (400, 500), (700, 1000)], Some((200, 701)))
        .build();
    assert!(tm.is_ok(), "{:?}", tm);
    let t = tm.unwrap();
    let fxs = t.features();
    assert_eq!(
        get_features(fxs),
        vec![Exon, UTR5, StartCodon, CDS, Exon, CDS, StopCodon, Exon, CDS, StopCodon, UTR3]
    );
    assert_eq!(get_coords_by_feature(fxs, Exon), vec![(100, 300), (400, 500), (700, 1000)]);
    assert_eq!(get_coords_by_feature(fxs, UTR5), vec![(100, 200)]);
    assert_eq!(get_coords_by_feature(fxs, StartCodon), vec![(200, 203)]);
    assert_eq!(get_coords_by_feature(fxs, CDS), vec![(200, 300), (400, 500), (700, 701)]);
    assert_eq!(get_coords_by_feature(fxs, StopCodon), vec![(498, 500), (700, 701)]);
    assert_eq!(get_coords_by_feature(fxs, UTR3), vec![(701, 1000)]);
}

#[test]
fn builder_from_coords_with_cds_fwd_stop_codon_at_start() {
    let tm = TranscriptBuilder::new("chrT", 100, 1000)
        .strand(Strand::Forward)
        .exon_and_cds_coords(vec![(100, 300), (400, 500), (700, 1000)], Some((200, 703)))
        .build();
    assert!(tm.is_ok(), "{:?}", tm);
    let t = tm.unwrap();
    let fxs = t.features();
    assert_eq!(
        get_features(fxs),
        vec![Exon, UTR5, StartCodon, CDS, Exon, CDS, Exon, CDS, StopCodon, UTR3]
    );
    assert_eq!(get_coords_by_feature(fxs, Exon), vec![(100, 300), (400, 500), (700, 1000)]);
    assert_eq!(get_coords_by_feature(fxs, UTR5), vec![(100, 200)]);
    assert_eq!(get_coords_by_feature(fxs, StartCodon), vec![(200, 203)]);
    assert_eq!(get_coords_by_feature(fxs, CDS), vec![(200, 300), (400, 500), (700, 703)]);
    assert_eq!(get_coords_by_feature(fxs, StopCodon), vec![(700, 703)]);
    assert_eq!(get_coords_by_feature(fxs, UTR3), vec![(703, 1000)]);
}

#[test]
fn builder() {
    let tfm1 = TxFeatureBuilder::new("chrT", 10, 20)
        .kind(TxFeature::Exon)
        .strand(Strand::Forward)
        .attribute("name", "ex1")
        .build();
    assert!(tfm1.is_ok());
    let tf = tfm1.unwrap();
    assert_eq!(tf.seq_name(), "chrT");
    assert_eq!(tf.kind(), &TxFeature::Exon);
    assert_eq!(tf.strand(), &Strand::Forward);
    assert_eq!(tf.attribute("name"), Some("ex1"));
    assert_eq!(tf.attributes().len(), 1);

    let tfm2 = TxFeatureBuilder::new("chrO", 10, 10)
        .strand_char('-')
        .strand(Strand::Reverse)
        .build();
    assert!(tfm2.is_ok());
}

#[test]
fn builder_interval_invalid() {
    let tfm = TxFeatureBuilder::new("chrE", 20, 10).build();
    assert!(tfm.is_err());
    assert_eq!(tfm.unwrap_err(), FeatureError::IntervalError);
}

#[test]
fn builder_strand_unspecified() {
    let tfm = TxFeatureBuilder::new("chrT", 20, 30).build();
    assert!(tfm.is_err());
    assert_eq!(tfm.unwrap_err(), FeatureError::UnspecifiedStrandError);
}

#[test]
fn builder_strand_char_unexpected() {
    let tfm = TxFeatureBuilder::new("chrE", 10, 20).strand_char('w').build();
    assert!(tfm.is_err());
    assert_eq!(tfm.unwrap_err(), FeatureError::StrandCharError);
}

#[test]
fn builder_strand_char_conflicting() {
    let tfm = TxFeatureBuilder::new("chrE", 10, 20)
        .strand_char('-')
        .strand(Strand::Reverse)
        .build();
    assert!(tfm.is_ok());
    let tf = tfm.unwrap();
    assert_eq!(tf.strand(), &Strand::Reverse);
}

#[test]
fn with_strand() {
    let trx = TranscriptBuilder::new("chrT", 0, 0).strand(Strand::Forward).build().unwrap();
    assert_eq!(trx.strand(), &Strand::Forward);
    assert_eq!(trx.len(), 0);
    assert!(trx.coding_coord().is_none());
    assert!(trx.id().is_none());
}

#[test]
fn with_exons() {
    let trx = build(Strand::Forward, vec![(1, 2), (10, 20), (100, 200)], None);
    assert_eq!(trx.len(), 3);
    assert_eq!(trx.exons().len(), 3);
    assert_eq!(trx.exon_coords(), vec![(1, 2), (10, 20), (100, 200)]);
}

#[test]
fn strand_characters() {
    assert_eq!(Strand::from_char('+'), Some(Strand::Forward));
    assert_eq!(Strand::from_char('-'), Some(Strand::Reverse));
    assert_eq!(Strand::from_char('.'), Some(Strand::Unknown));
    for c in ['f', 'F', 'r', 'R', '?', 'w', ' ', '\t'] {
        assert_eq!(Strand::from_char(c), None);
    }
    assert_eq!(Strand::Forward.to_char(), '+');
    assert_eq!(Strand::Reverse.to_char(), '-');
    assert_eq!(Strand::Unknown.to_char(), '.');
}

#[test]
fn strand_resolution() {
    assert_eq!(resolve_strand_input(None, None), Err(FeatureError::UnspecifiedStrandError));
    assert_eq!(resolve_strand_input(Some(Strand::Reverse), None), Ok(Strand::Reverse));
    assert_eq!(resolve_strand_input(None, Some('+')), Ok(Strand::Forward));
    assert_eq!(resolve_strand_input(None, Some('x')), Err(FeatureError::StrandCharError));
    assert_eq!(
        resolve_strand_input(Some(Strand::Reverse), Some('+')),
        Err(FeatureError::ConflictingStrandError)
    );
    assert_eq!(
        resolve_strand_input(Some(Strand::Forward), Some('x')),
        Err(FeatureError::StrandCharError)
    );
    assert_eq!(resolve_strand_input(Some(Strand::Unknown), Some('.')), Ok(Strand::Unknown));
    assert_eq!(resolve_strand_input(Some(Strand::Forward), Some('+')), Ok(Strand::Forward));
}

#[test]
fn failure_cases() {
    let bad_exon = TranscriptBuilder::new("chrT", 10, 20)
        .strand(Strand::Forward)
        .exon_and_cds_coords(vec![(20, 10)], None)
        .build();
    assert_eq!(bad_exon.unwrap_err(), FeatureError::SubFeatureIntervalError);

    let no_exons = TranscriptBuilder::new("chrT", 10, 20)
        .strand(Strand::Forward)
        .exon_and_cds_coords(vec![], Some((12, 18)))
        .build();
    assert_eq!(no_exons.unwrap_err(), FeatureError::IncompleteTranscriptError);

    assert_eq!(Interval::new(20, 10).unwrap_err(), FeatureError::IntervalError);

    let conflict = TxFeatureBuilder::new("chrT", 10, 20)
        .strand(Strand::Reverse)
        .strand_char('+')
        .build();
    assert_eq!(conflict.unwrap_err(), FeatureError::ConflictingStrandError);
}

#[test]
fn validation_order_of_the_transcript_builder() {
    let all_wrong = TranscriptBuilder::new("chrT", 20, 10)
        .strand_char('x')
        .exon_and_cds_coords(vec![], None)
        .build();
    assert_eq!(all_wrong.unwrap_err(), FeatureError::IntervalError);
    let strand_wrong = TranscriptBuilder::new("chrT", 10, 20)
        .strand_char('x')
        .exon_and_cds_coords(vec![], None)
        .build();
    assert_eq!(strand_wrong.unwrap_err(), FeatureError::StrandCharError);
    let none = TranscriptBuilder::new("chrT", 10, 20).build();
    assert_eq!(none.unwrap_err(), FeatureError::UnspecifiedStrandError);
}

#[test]
fn inference_failures() {
    let infer = |exons: Vec<(u64, u64)>, cds, start, end| {
        infer_layout(&exons, cds, start, end, Strand::Forward)
    };
    assert_eq!(infer(vec![], None, 0, 0), Err(FeatureError::IncompleteTranscriptError));
    assert_eq!(infer(vec![(5, 5)], None, 5, 5), Err(FeatureError::SubFeatureIntervalError));
    assert_eq!(infer(vec![(5, 9)], None, 4, 9), Err(FeatureError::SubFeatureIntervalError));
    assert_eq!(infer(vec![(5, 9)], None, 5, 10), Err(FeatureError::SubFeatureIntervalError));
    assert_eq!(infer(vec![(5, 9)], Some((8, 6)), 5, 9), Err(FeatureError::SubFeatureIntervalError));
    assert_eq!(infer(vec![(5, 9)], Some((4, 8)), 5, 9), Err(FeatureError::SubFeatureIntervalError));
    assert_eq!(infer(vec![(5, 9)], Some((6, 10)), 5, 9), Err(FeatureError::SubFeatureIntervalError));
    assert_eq!(
        infer(vec![(5, 9)], Some((7, 7)), 5, 9),
        Ok(vec![Piece { kind: Exon, start: 5, end: 9 }])
    );
}

#[test]
fn exons_span_the_transcript_in_any_order() {
    let pieces = infer_layout(&vec![(400, 500), (100, 300)], None, 100, 500, Strand::Forward);
    assert_eq!(
        pieces,
        Ok(vec![
            Piece { kind: Exon, start: 400, end: 500 },
            Piece { kind: Exon, start: 100, end: 300 },
        ])
    );
}

#[test]
fn only_a_coding_region_is_incomplete() {
    let mut builder = TranscriptBuilder::new("chrT", 10, 20).strand(Strand::Forward);
    builder.cds_coord = Some((12, 18));
    assert_eq!(builder.build().unwrap_err(), FeatureError::IncompleteTranscriptError);
}

#[test]
fn given_features_take_precedence() {
    let exon = TxFeatureBuilder::new("chrT", 12, 15)
        .kind(TxFeature::Exon)
        .strand(Strand::Forward)
        .build()
        .unwrap();
    let t = TranscriptBuilder::new("chrT", 10, 20)
        .strand(Strand::Forward)
        .features(vec![exon])
        .exon_and_cds_coords(vec![(1, 5)], Some((9, 3)))
        .build()
        .unwrap();
    assert_eq!(get_features(t.features()), vec![Exon]);
    assert_eq!(get_coords_by_feature(t.features(), Exon), vec![(12, 15)]);
}

#[test]
fn inferred_features_lie_on_the_transcript() {
    let name = String::from("chr7");
    let interval = Interval::new(100, 1000).unwrap();
    let fxs = infer_features(&name, &interval, &Strand::Reverse, &three_exons(), Some((200, 900)))
        .unwrap();
    assert!(fxs.iter().all(|fx| fx.seq_name() == "chr7"));
    assert!(fxs.iter().all(|fx| fx.strand() == &Strand::Reverse));
    assert!(fxs.iter().all(|fx| fx.attributes().len() == 0));
}

#[test]
fn reverse_strand_swaps_codons_and_untranslated_kinds() {
    let t = build(Strand::Reverse, three_exons(), Some((200, 900)));
    let fxs = t.features();
    assert_eq!(
        get_features(fxs),
        vec![Exon, UTR3, StopCodon, CDS, Exon, CDS, Exon, CDS, StartCodon, UTR5]
    );
    assert_eq!(get_coords_by_feature(fxs, StopCodon), vec![(200, 203)]);
    assert_eq!(get_coords_by_feature(fxs, StartCodon), vec![(897, 900)]);
    assert_eq!(get_coords_by_feature(fxs, UTR3), vec![(100, 200)]);
    assert_eq!(get_coords_by_feature(fxs, UTR5), vec![(900, 1000)]);
}

#[test]
fn unknown_strand_has_no_codons() {
    let t = build(Strand::Unknown, three_exons(), Some((200, 900)));
    let fxs = t.features();
    assert_eq!(get_features(fxs), vec![Exon, UTR, CDS, Exon, CDS, Exon, CDS, UTR]);
    assert_eq!(get_coords_by_feature(fxs, UTR), vec![(100, 200), (900, 1000)]);
    assert_eq!(get_coords_by_feature(fxs, CDS), vec![(200, 300), (400, 500), (700, 900)]);
}

#[test]
fn exons_outside_the_coding_region_are_untranslated() {
    let exons = vec![(10, 20), (30, 40), (50, 60), (70, 80), (90, 100)];
    let t = build(Strand::Forward, exons, Some((35, 75)));
    let fxs = t.features();
    assert_eq!(
        get_features(fxs),
        vec![
            Exon, UTR5, Exon, UTR5, StartCodon, CDS, Exon, CDS, Exon, CDS, StopCodon, UTR3, Exon,
            UTR3
        ]
    );
    assert_eq!(get_coords_by_feature(fxs, UTR5), vec![(10, 20), (30, 35)]);
    assert_eq!(get_coords_by_feature(fxs, CDS), vec![(35, 40), (50, 60), (70, 75)]);
    assert_eq!(get_coords_by_feature(fxs, UTR3), vec![(75, 80), (90, 100)]);
    assert_eq!(t.coding_coord(), Some((35, 75)));
}

#[test]
fn coding_sequence_and_untranslated_pieces_part_the_exons() {
    let exons = three_exons();
    let (cs, ce) = (299u64, 701u64);
    let pieces = infer_layout(&exons, Some((cs, ce)), 100, 1000, Strand::Forward).unwrap();
    for pos in 90u64..1010 {
        let in_exon = exons.iter().any(|e| e.0 <= pos && pos < e.1);
        let coding = pieces.iter().any(|p| p.kind == CDS && p.start <= pos && pos < p.end);
        let untranslated = pieces
            .iter()
            .any(|p| matches!(p.kind, UTR | UTR5 | UTR3) && p.start <= pos && pos < p.end);
        assert_eq!(coding, in_exon && cs <= pos && pos < ce);
        assert_eq!(untranslated, in_exon && !(cs <= pos && pos < ce));
    }
    let bases = |kind: TxFeature| -> u64 {
        pieces.iter().filter(|p| p.kind == kind).map(|p| p.end - p.start).sum()
    };
    assert_eq!(bases(StartCodon), 3);
    assert_eq!(bases(StopCodon), 3);
}

#[test]
fn an_exon_around_the_whole_coding_region_is_coding_to_its_end() {
    let pieces = infer_layout(&vec![(100, 1000)], Some((200, 900)), 100, 1000, Strand::Forward);
    assert_eq!(
        pieces,
        Ok(vec![
            Piece { kind: Exon, start: 100, end: 1000 },
            Piece { kind: UTR5, start: 100, end: 200 },
            Piece { kind: StartCodon, start: 200, end: 203 },
            Piece { kind: CDS, start: 200, end: 1000 },
        ])
    );
}

#[test]
fn a_short_last_coding_exon_gets_no_codon() {
    let pieces =
        infer_layout(&vec![(100, 200), (300, 302)], Some((150, 302)), 100, 302, Strand::Forward)
            .unwrap();
    assert_eq!(
        pieces,
        vec![
            Piece { kind: Exon, start: 100, end: 200 },
            Piece { kind: UTR5, start: 100, end: 150 },
            Piece { kind: StartCodon, start: 150, end: 153 },
            Piece { kind: CDS, start: 150, end: 200 },
            Piece { kind: Exon, start: 300, end: 302 },
            Piece { kind: CDS, start: 300, end: 302 },
        ]
    );
}

#[test]
fn a_codon_carried_back_stops_at_coordinate_zero() {
    let pieces =
        infer_layout(&vec![(0, 1), (5, 10)], Some((0, 6)), 0, 10, Strand::Forward).unwrap();
    assert_eq!(
        pieces,
        vec![
            Piece { kind: Exon, start: 0, end: 1 },
            Piece { kind: StartCodon, start: 0, end: 1 },
            Piece { kind: CDS, start: 0, end: 1 },
            Piece { kind: StopCodon, start: 0, end: 1 },
            Piece { kind: Exon, start: 5, end: 10 },
            Piece { kind: CDS, start: 5, end: 6 },
            Piece { kind: StopCodon, start: 5, end: 6 },
            Piece { kind: UTR3, start: 6, end: 10 },
        ]
    );
}

#[test]
fn a_first_exon_with_a_short_coding_part_has_nothing_to_carry_back() {
    let pieces = infer_layout(&vec![(0, 10)], Some((0, 2)), 0, 10, Strand::Forward).unwrap();
    assert_eq!(
        pieces,
        vec![
            Piece { kind: Exon, start: 0, end: 10 },
            Piece { kind: CDS, start: 0, end: 2 },
            Piece { kind: StopCodon, start: 0, end: 2 },
            Piece { kind: UTR3, start: 2, end: 10 },
        ]
    );
}

#[test]
fn coordinates_at_the_upper_limit() {
    let top = u64::MAX;
    let pieces =
        infer_layout(&vec![(top - 10, top)], Some((top - 2, top)), top - 10, top, Strand::Forward)
            .unwrap();
    assert_eq!(
        pieces,
        vec![
            Piece { kind: Exon, start: top - 10, end: top },
            Piece { kind: UTR5, start: top - 10, end: top - 2 },
            Piece { kind: StartCodon, start: top - 2, end: top },
            Piece { kind: CDS, start: top - 2, end: top },
        ]
    );
}

#[test]
fn attributes_keep_one_value_for_each_key() {
    let mut attributes = Attributes::new();
    assert_eq!(attributes.len(), 0);
    assert!(attributes.get("a").is_none());
    attributes.insert(String::from("a"), String::from("1"));
    attributes.insert(String::from("b"), String::from("2"));
    attributes.insert(String::from("a"), String::from("3"));
    assert_eq!(attributes.len(), 2);
    assert_eq!(attributes.get("a").map(|v| v.as_str()), Some("3"));
    assert_eq!(attributes.get("b").map(|v| v.as_str()), Some("2"));
    assert!(attributes.contains_key("b"));
    assert!(!attributes.contains_key("c"));
}

#[test]
fn transcript_annotation() {
    let t = TranscriptBuilder::new("chr2", 5, 9)
        .id("TX1")
        .strand_char('-')
        .attribute("gene_id", "G1")
        .exon_and_cds_coords(vec![(5, 9)], None)
        .build()
        .unwrap();
    assert_eq!(t.id(), Some("TX1"));
    assert_eq!(t.seq_name(), "chr2");
    assert_eq!(t.strand(), &Strand::Reverse);
    assert_eq!((t.interval().start(), t.interval().end()), (5, 9));
    assert_eq!(t.span(), 4);
    assert_eq!(t.attribute("gene_id"), Some("G1"));
    assert_eq!(t.attribute("other"), None);
    assert_eq!(t.attributes().len(), 1);
}

#[test]
fn failure_descriptions() {
    assert_eq!(
        FeatureError::IntervalError.description(),
        "interval start coordinate larger than its end coordinate"
    );
    assert_eq!(FeatureError::StrandCharError.description(), "strand character is invalid");
    assert_eq!(
        FeatureError::ConflictingStrandError.description(),
        "conflicting strand inputs specified"
    );
    assert_eq!(FeatureError::UnspecifiedStrandError.description(), "strand not specified");
    assert_eq!(
        FeatureError::SubFeatureIntervalError.description(),
        "subfeature interval is not completely enveloped by parent"
    );
    assert_eq!(
        FeatureError::IncompleteTranscriptError.description(),
        "transcript annotation is incomplete"
    );
    assert_eq!(
        FeatureError::StrandCharError.message(),
        "FeatureError: strand character is invalid"
    );
}
