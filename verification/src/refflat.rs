//! Rows of the transcript table: one transcript per row, with its gene, its
//! sequence, its strand, its bounds, the bounds of its coding region and the
//! starts and ends of its exons. Rows are turned into transcripts, neighbours
//! of one gene are gathered into genes, and transcripts and genes are turned
//! back into rows.

use vstd::prelude::*;
use vstd::string::StringExecFns;
use crate::coverage::exon_pieces_are_the_exons;
use crate::error::{Error, FeatureError, RefFlatError};
use crate::feature::Annotation;
use crate::gene::{
    gene_outcome, given_transcripts_view, reversed, Gene, GeneBuilder, GeneView,
};
use crate::layout::layout;
use crate::strand::{strand_of_char, Strand};
use crate::text::{
    chars_of, decimal_text, format_list, format_u64, list_text, number_of_text, numbers_of_text,
    parse_list, parse_u64,
};
use crate::transcript::{
    exon_coords_of, exon_coords_of_layout, transcript_outcome, Transcript, TranscriptBuilder,
    TranscriptView,
};

verus! {

/// A row as a tuple of its eleven columns.
pub type RefFlatRow = (String, String, String, char, u64, u64, u64, u64, usize, String, String);

/// A row of the transcript table.
#[derive(Debug)]
pub struct RefFlatRecord {
    pub gene_id: String,
    pub transcript_name: String,
    pub seq_name: String,
    pub strand: char,
    pub trx_start: u64,
    pub trx_end: u64,
    pub coding_start: u64,
    pub coding_end: u64,
    pub num_exons: usize,
    pub exon_starts: String,
    pub exon_ends: String,
}

/// A row, or the reason why there is none at its place.
pub type RecordResult = Result<RefFlatRecord, Error>;

impl From<RefFlatRow> for RefFlatRecord {
    fn from(row: RefFlatRow) -> (r: RefFlatRecord) {
        RefFlatRecord {
            gene_id: row.0,
            transcript_name: row.1,
            seq_name: row.2,
            strand: row.3,
            trx_start: row.4,
            trx_end: row.5,
            coding_start: row.6,
            coding_end: row.7,
            num_exons: row.8,
            exon_starts: row.9,
            exon_ends: row.10,
        }
    }
}

impl vstd::std_specs::convert::FromSpecImpl<RefFlatRow> for RefFlatRecord {
    open spec fn obeys_from_spec() -> bool {
        true
    }

    open spec fn from_spec(row: RefFlatRow) -> RefFlatRecord {
        RefFlatRecord {
            gene_id: row.0,
            transcript_name: row.1,
            seq_name: row.2,
            strand: row.3,
            trx_start: row.4,
            trx_end: row.5,
            coding_start: row.6,
            coding_end: row.7,
            num_exons: row.8,
            exon_starts: row.9,
            exon_ends: row.10,
        }
    }
}

/// The pairs of the starts with the ends at the same places.
pub open spec fn paired(starts: Seq<u64>, ends: Seq<u64>) -> Seq<(u64, u64)> {
    Seq::new(starts.len(), |i: int| (starts[i], ends[i]))
}

/// The exon bounds that a row gives: both exon columns have to be lists of
/// numbers, and of the same length.
pub open spec fn record_coords(record: RefFlatRecord) -> Result<Seq<(u64, u64)>, Error> {
    match numbers_of_text(record.exon_starts@) {
        None => Err(Error::ParseInt),
        Some(starts) => match numbers_of_text(record.exon_ends@) {
            None => Err(Error::ParseInt),
            Some(ends) => if starts.len() != ends.len() {
                Err(Error::RefFlat(RefFlatError::ExonCountMismatch))
            } else {
                Ok(paired(starts, ends))
            },
        },
    }
}

/// The coding region that a row gives: none where its coding start and its
/// coding end are the same.
pub open spec fn record_coding(record: RefFlatRecord) -> Option<(u64, u64)> {
    if record.coding_start != record.coding_end {
        Some((record.coding_start, record.coding_end))
    } else {
        None
    }
}

/// The attributes of a transcript read from a row: the gene identifier under
/// `gene_id`.
pub open spec fn gene_id_attribute(gene_id: Seq<char>) -> Map<Seq<char>, Seq<char>> {
    Map::<Seq<char>, Seq<char>>::empty().insert("gene_id"@, gene_id)
}

/// The transcript that a row gives, or the reason why it gives none.
///
/// The exon columns are read first. Their number has to be the exon count of
/// the row. The strand column has to denote a strand. Then the transcript is
/// built from the bounds of the row, its exons and its coding region, under
/// the name of the row as its identifier.
pub open spec fn record_transcript(record: RefFlatRecord) -> Result<TranscriptView, Error> {
    match record_coords(record) {
        Err(e) => Err(e),
        Ok(coords) => if coords.len() != record.num_exons {
            Err(Error::RefFlat(RefFlatError::ExonCountMismatch))
        } else {
            match strand_of_char(record.strand) {
                None => Err(Error::Feature(FeatureError::StrandCharError)),
                Some(strand) => match transcript_outcome(
                    Some(record.transcript_name@),
                    record.seq_name@,
                    record.trx_start,
                    record.trx_end,
                    Some(strand),
                    None,
                    gene_id_attribute(record.gene_id@),
                    None,
                    Some(coords),
                    record_coding(record),
                ) {
                    Ok(transcript) => Ok(transcript),
                    Err(e) => Err(Error::Feature(e)),
                },
            }
        },
    }
}

/// The first numbers of the pairs.
pub open spec fn starts_of(coords: Seq<(u64, u64)>) -> Seq<u64> {
    coords.map_values(|c: (u64, u64)| c.0)
}

/// The second numbers of the pairs.
pub open spec fn ends_of(coords: Seq<(u64, u64)>) -> Seq<u64> {
    coords.map_values(|c: (u64, u64)| c.1)
}

/// The text of an optional name, empty without one.
pub open spec fn name_or_empty(name: Option<Seq<char>>) -> Seq<char> {
    match name {
        Some(text) => text,
        None => Seq::empty(),
    }
}

/// The gene identifier of the row of a transcript: the one given, or else the
/// attribute `gene_id` of the transcript, or else the empty text.
pub open spec fn written_gene_id(transcript: TranscriptView, gene_id: Option<Seq<char>>) -> Seq<
    char,
> {
    match gene_id {
        Some(given) => given,
        None => if transcript.attributes.dom().contains("gene_id"@) {
            transcript.attributes["gene_id"@]
        } else {
            Seq::empty()
        },
    }
}

/// The coding bounds of the row of a transcript: those of its coding
/// region, or else its end twice.
pub open spec fn written_coding(transcript: TranscriptView) -> (u64, u64) {
    match transcript.coding {
        Some(span) => span,
        None => (transcript.end, transcript.end),
    }
}

/// The row is the row of the transcript under the gene identifier.
pub open spec fn is_row_of(
    record: RefFlatRecord,
    transcript: TranscriptView,
    gene_id: Option<Seq<char>>,
) -> bool {
    &&& record.gene_id@ == written_gene_id(transcript, gene_id)
    &&& record.transcript_name@ == name_or_empty(transcript.id)
    &&& record.seq_name@ == transcript.seq_name
    &&& record.strand == transcript.strand.symbol()
    &&& record.trx_start == transcript.start
    &&& record.trx_end == transcript.end
    &&& (record.coding_start, record.coding_end) == written_coding(transcript)
    &&& record.num_exons == exon_coords_of(transcript.features).len()
    &&& record.exon_starts@ == list_text(starts_of(exon_coords_of(transcript.features)))
    &&& record.exon_ends@ == list_text(ends_of(exon_coords_of(transcript.features)))
}

/// The first fault of the columns of a row, if they have one: their number is
/// not eleven, the strand column is not one character, or one of the five
/// number columns, taken in order, holds no number.
pub open spec fn fields_fault(fields: Seq<Seq<char>>) -> Option<Error> {
    if fields.len() != 11 {
        Some(Error::RefFlat(RefFlatError::ColumnCountMismatch))
    } else if fields[3].len() != 1 {
        Some(Error::RefFlat(RefFlatError::StrandColumn))
    } else if number_of_text(fields[4]).is_none() || number_of_text(fields[5]).is_none()
        || number_of_text(fields[6]).is_none() || number_of_text(fields[7]).is_none()
        || number_of_text(fields[8]).is_none() || number_of_text(fields[8])->0 > usize::MAX {
        Some(Error::ParseInt)
    } else {
        None
    }
}

/// The row holds what the eleven columns say.
pub open spec fn is_record_of(record: RefFlatRecord, fields: Seq<Seq<char>>) -> bool {
    &&& record.gene_id@ == fields[0]
    &&& record.transcript_name@ == fields[1]
    &&& record.seq_name@ == fields[2]
    &&& record.strand == fields[3][0]
    &&& Some(record.trx_start) == number_of_text(fields[4])
    &&& Some(record.trx_end) == number_of_text(fields[5])
    &&& Some(record.coding_start) == number_of_text(fields[6])
    &&& Some(record.coding_end) == number_of_text(fields[7])
    &&& Some(record.num_exons as u64) == number_of_text(fields[8])
    &&& record.exon_starts@ == fields[9]
    &&& record.exon_ends@ == fields[10]
}

/// The texts of a list of columns.
pub open spec fn fields_view(fields: Seq<String>) -> Seq<Seq<char>> {
    fields.map_values(|f: String| f@)
}

/// The eleven column texts of a row.
pub open spec fn record_fields(record: RefFlatRecord) -> Seq<Seq<char>> {
    seq![
        record.gene_id@,
        record.transcript_name@,
        record.seq_name@,
        seq![record.strand],
        decimal_text(record.trx_start as nat),
        decimal_text(record.trx_end as nat),
        decimal_text(record.coding_start as nat),
        decimal_text(record.coding_end as nat),
        decimal_text(record.num_exons as nat),
        record.exon_starts@,
        record.exon_ends@,
    ]
}

/// Calls `String::from` on a character, which gives the text that holds
/// this character and no other.
#[verifier::external_body]
fn char_text(c: char) -> (r: String)
    ensures
        r@ == seq![c],
{
    String::from(c)
}

impl RefFlatRecord {
    /// Reads the exon bounds from the two exon columns.
    pub fn zip_raw_exon_coords(&self) -> (r: Result<Vec<(u64, u64)>, Error>)
        ensures
            match r {
                Ok(coords) => record_coords(*self) == Ok::<Seq<(u64, u64)>, Error>(coords@),
                Err(e) => record_coords(*self) == Err::<Seq<(u64, u64)>, Error>(e),
            },
    {
        let starts = match parse_list(self.exon_starts.as_str()) {
            Some(numbers) => numbers,
            None => {
                return Err(Error::ParseInt);
            },
        };
        let ends = match parse_list(self.exon_ends.as_str()) {
            Some(numbers) => numbers,
            None => {
                return Err(Error::ParseInt);
            },
        };
        if starts.len() != ends.len() {
            return Err(Error::RefFlat(RefFlatError::ExonCountMismatch));
        }
        let mut coords: Vec<(u64, u64)> = Vec::new();
        let mut i: usize = 0;
        while i < starts.len()
            invariant
                0 <= i <= starts.len(),
                starts.len() == ends.len(),
                coords@ == paired(starts@, ends@).take(i as int),
            decreases starts.len() - i,
        {
            coords.push((starts[i], ends[i]));
            proof {
                assert(coords@ =~= paired(starts@, ends@).take(i + 1));
            }
            i += 1;
        }
        proof {
            assert(paired(starts@, ends@).take(starts.len() as int) =~= paired(starts@, ends@));
        }
        Ok(coords)
    }

    /// Builds the transcript of the row.
    pub fn to_transcript(&self) -> (r: Result<Transcript, Error>)
        ensures
            match r {
                Ok(transcript) => record_transcript(*self) == Ok::<TranscriptView, Error>(
                    transcript@,
                ),
                Err(e) => record_transcript(*self) == Err::<TranscriptView, Error>(e),
            },
    {
        let coords = self.zip_raw_exon_coords()?;
        if coords.len() != self.num_exons {
            return Err(Error::RefFlat(RefFlatError::ExonCountMismatch));
        }
        let strand = match Strand::from_char(self.strand) {
            Some(strand) => strand,
            None => {
                return Err(Error::Feature(FeatureError::StrandCharError));
            },
        };
        let coding = if self.coding_start != self.coding_end {
            Some((self.coding_start, self.coding_end))
        } else {
            None
        };
        let built = TranscriptBuilder::new(self.seq_name.as_str(), self.trx_start, self.trx_end).id(
            self.transcript_name.as_str(),
        ).strand(strand).exon_and_cds_coords(coords, coding).attribute(
            "gene_id",
            self.gene_id.as_str(),
        ).build();
        match built {
            Ok(transcript) => Ok(transcript),
            Err(e) => Err(Error::Feature(e)),
        }
    }

    /// Builds the transcript of the row.
    pub fn into_transcript(self) -> (r: Result<Transcript, Error>)
        ensures
            match r {
                Ok(transcript) => record_transcript(self) == Ok::<TranscriptView, Error>(
                    transcript@,
                ),
                Err(e) => record_transcript(self) == Err::<TranscriptView, Error>(e),
            },
    {
        self.to_transcript()
    }

    /// The row of a transcript. With a gene identifier given, the row gets
    /// that one; without, it gets the transcript's attribute `gene_id`.
    pub fn from_transcript(transcript: &Transcript, gene_id: Option<&str>) -> (r: RefFlatRecord)
        ensures
            is_row_of(
                r,
                transcript@,
                match gene_id {
                    Some(text) => Some(text@),
                    None => None,
                },
            ),
    {
        let gene_id = match gene_id {
            Some(given) => String::from_str(given),
            None => match transcript.attribute("gene_id") {
                Some(value) => String::from_str(value),
                None => String::new(),
            },
        };
        let transcript_name = match transcript.id() {
            Some(text) => String::from_str(text),
            None => String::new(),
        };
        let interval = transcript.interval();
        let end = interval.end();
        let (coding_start, coding_end) = match transcript.coding_coord() {
            Some(span) => span,
            None => (end, end),
        };
        let coords = transcript.exon_coords();
        let (exon_starts, exon_ends) = coords_field(transcript);
        RefFlatRecord {
            gene_id,
            transcript_name,
            seq_name: String::from_str(transcript.seq_name()),
            strand: transcript.strand().to_char(),
            trx_start: interval.start(),
            trx_end: end,
            coding_start,
            coding_end,
            num_exons: coords.len(),
            exon_starts,
            exon_ends,
        }
    }

    /// Reads a row from the texts of its columns.
    pub fn from_fields(fields: &Vec<String>) -> (r: Result<RefFlatRecord, Error>)
        ensures
            match r {
                Ok(record) => fields_fault(fields_view(fields@)).is_none() && is_record_of(
                    record,
                    fields_view(fields@),
                ),
                Err(e) => fields_fault(fields_view(fields@)) == Some(e),
            },
    {
        if fields.len() != 11 {
            return Err(Error::RefFlat(RefFlatError::ColumnCountMismatch));
        }
        let strand_chars = chars_of(fields[3].as_str());
        if strand_chars.len() != 1 {
            return Err(Error::RefFlat(RefFlatError::StrandColumn));
        }
        let trx_start = parse_u64(fields[4].as_str());
        let trx_end = parse_u64(fields[5].as_str());
        let coding_start = parse_u64(fields[6].as_str());
        let coding_end = parse_u64(fields[7].as_str());
        let num_exons = parse_u64(fields[8].as_str());
        match (trx_start, trx_end, coding_start, coding_end, num_exons) {
            (Some(trx_start), Some(trx_end), Some(coding_start), Some(coding_end), Some(count)) => {
                if count > usize::MAX as u64 {
                    return Err(Error::ParseInt);
                }
                Ok(
                    RefFlatRecord {
                        gene_id: fields[0].clone(),
                        transcript_name: fields[1].clone(),
                        seq_name: fields[2].clone(),
                        strand: strand_chars[0],
                        trx_start,
                        trx_end,
                        coding_start,
                        coding_end,
                        num_exons: count as usize,
                        exon_starts: fields[9].clone(),
                        exon_ends: fields[10].clone(),
                    },
                )
            },
            _ => Err(Error::ParseInt),
        }
    }

    /// The texts of the eleven columns of the row.
    pub fn to_fields(&self) -> (r: Vec<String>)
        ensures
            fields_view(r@) == record_fields(*self),
    {
        let mut fields: Vec<String> = Vec::new();
        fields.push(self.gene_id.clone());
        fields.push(self.transcript_name.clone());
        fields.push(self.seq_name.clone());
        fields.push(char_text(self.strand));
        fields.push(format_u64(self.trx_start));
        fields.push(format_u64(self.trx_end));
        fields.push(format_u64(self.coding_start));
        fields.push(format_u64(self.coding_end));
        fields.push(format_u64(self.num_exons as u64));
        fields.push(self.exon_starts.clone());
        fields.push(self.exon_ends.clone());
        proof {
            assert(fields_view(fields@) =~= record_fields(*self));
        }
        fields
    }
}

/// The texts of the two exon columns of a transcript: the starts and the ends
/// of its exons, in order.
pub fn coords_field(trx: &Transcript) -> (r: (String, String))
    ensures
        r.0@ == list_text(starts_of(exon_coords_of(trx@.features))),
        r.1@ == list_text(ends_of(exon_coords_of(trx@.features))),
{
    let coords = trx.exon_coords();
    let mut starts: Vec<u64> = Vec::new();
    let mut ends: Vec<u64> = Vec::new();
    let mut i: usize = 0;
    while i < coords.len()
        invariant
            0 <= i <= coords.len(),
            starts@ == starts_of(coords@).take(i as int),
            ends@ == ends_of(coords@).take(i as int),
        decreases coords.len() - i,
    {
        starts.push(coords[i].0);
        ends.push(coords[i].1);
        proof {
            assert(starts@ =~= starts_of(coords@).take(i + 1));
            assert(ends@ =~= ends_of(coords@).take(i + 1));
        }
        i += 1;
    }
    proof {
        assert(starts_of(coords@).take(coords.len() as int) =~= starts_of(coords@));
        assert(ends_of(coords@).take(coords.len() as int) =~= ends_of(coords@));
    }
    (format_list(&starts), format_list(&ends))
}

/// The rows of a gene: one for each of its transcripts, in their order, under
/// the identifier of the gene if it has one.
pub fn gene_records(gene: &Gene) -> (r: Vec<RefFlatRecord>)
    ensures
        r@.len() == gene@.transcripts.len(),
        forall|i: int|
            0 <= i < r@.len() ==> is_row_of(#[trigger] r@[i], gene@.transcripts[i].1, gene@.id),
{
    let transcripts = gene.transcript_list();
    let gene_id = gene.id();
    let mut records: Vec<RefFlatRecord> = Vec::new();
    let mut i: usize = 0;
    while i < transcripts.len()
        invariant
            0 <= i <= transcripts.len(),
            transcripts@.len() == gene@.transcripts.len(),
            forall|k: int|
                0 <= k < transcripts@.len() ==> (#[trigger] transcripts@[k])@
                    == gene@.transcripts[k].1,
            match gene_id {
                Some(text) => gene@.id == Some(text@),
                None => gene@.id.is_none(),
            },
            records@.len() == i,
            forall|k: int|
                0 <= k < i ==> is_row_of(#[trigger] records@[k], gene@.transcripts[k].1, gene@.id),
        decreases transcripts.len() - i,
    {
        let record = RefFlatRecord::from_transcript(transcripts[i], gene_id);
        records.push(record);
        i += 1;
    }
    records
}

/// What rows have to share to belong to one gene: the gene identifier, the
/// sequence and the strand character. A failure has no key.
pub open spec fn key_of(item: RecordResult) -> Option<(Seq<char>, Seq<char>, char)> {
    match item {
        Ok(record) => Some((record.gene_id@, record.seq_name@, record.strand)),
        Err(_) => None,
    }
}

/// The key by which neighbouring rows are gathered into genes.
pub fn groupf(result: &RecordResult) -> (r: Option<(String, String, char)>)
    ensures
        match r {
            Some(key) => key_of(*result) == Some((key.0@, key.1@, key.2)),
            None => key_of(*result).is_none(),
        },
{
    match result {
        Ok(record) => Some((record.gene_id.clone(), record.seq_name.clone(), record.strand)),
        Err(_) => None,
    }
}

/// Whether two items have the same key.
pub fn same_key(a: &RecordResult, b: &RecordResult) -> (r: bool)
    ensures
        r == (key_of(*a) == key_of(*b)),
{
    match (a, b) {
        (Ok(x), Ok(y)) => x.gene_id == y.gene_id && x.seq_name == y.seq_name && x.strand
            == y.strand,
        (Err(_), Err(_)) => true,
        _ => false,
    }
}

/// The transcript of an item: that of its row, or its failure.
pub open spec fn item_transcript(item: RecordResult) -> Result<TranscriptView, Error> {
    match item {
        Ok(record) => record_transcript(record),
        Err(e) => Err(e),
    }
}

/// The name of the row of an item, empty for a failure.
pub open spec fn item_name(item: RecordResult) -> Seq<char> {
    match item {
        Ok(record) => record.transcript_name@,
        Err(_) => Seq::empty(),
    }
}

/// The transcripts of a run of items under their names, or the first failure
/// in the run.
pub open spec fn run_transcripts(run: Seq<RecordResult>) -> Result<
    Seq<(Seq<char>, TranscriptView)>,
    Error,
>
    decreases run.len(),
{
    if run.len() == 0 {
        Ok(Seq::empty())
    } else {
        match run_transcripts(run.drop_last()) {
            Err(e) => Err(e),
            Ok(earlier) => match item_transcript(run.last()) {
                Err(e) => Err(e),
                Ok(transcript) => Ok(earlier.push((item_name(run.last()), transcript))),
            },
        }
    }
}

/// The gene of a run of items, or the reason why it has none.
///
/// The first failure in the run, be it an item that is no row or a row that
/// gives no transcript, is the failure of the run. Otherwise the gene lies on
/// the sequence and the strand of the first row, under its gene identifier,
/// from the lowest start to the highest end of the transcripts, and holds the
/// transcripts under the names of their rows, in order.
pub open spec fn run_outcome(run: Seq<RecordResult>) -> Result<GeneView, Error> {
    match run_transcripts(run) {
        Err(e) => Err(e),
        Ok(transcripts) => match run[0] {
            Err(e) => Err(e),
            Ok(first) => match gene_outcome(
                Some(first.gene_id@),
                first.seq_name@,
                None,
                None,
                Some(first.strand),
                Map::empty(),
                transcripts,
            ) {
                Ok(gene) => Ok(gene),
                Err(e) => Err(Error::Feature(e)),
            },
        },
    }
}

/// The runs of a sequence of items: each item joins the run before it if it
/// has the key of that run, and starts a new run if not.
pub open spec fn runs_of(items: Seq<RecordResult>) -> Seq<Seq<RecordResult>>
    decreases items.len(),
{
    if items.len() == 0 {
        Seq::empty()
    } else {
        let earlier = runs_of(items.drop_last());
        if earlier.len() > 0 && key_of(earlier.last()[0]) == key_of(items.last()) {
            earlier.drop_last().push(earlier.last().push(items.last()))
        } else {
            earlier.push(seq![items.last()])
        }
    }
}

/// The genes of a sequence of items: the outcome of each of its runs.
pub open spec fn genes_of(items: Seq<RecordResult>) -> Seq<Result<GeneView, Error>> {
    runs_of(items).map_values(|run: Seq<RecordResult>| run_outcome(run))
}

/// A gene or a failure, as a value of the model.
pub open spec fn gene_result_view(result: Result<Gene, Error>) -> Result<GeneView, Error> {
    match result {
        Ok(gene) => Ok(gene@),
        Err(e) => Err(e),
    }
}

proof fn lemma_run_failure_stays(run: Seq<RecordResult>, n: int)
    requires
        0 <= n <= run.len(),
        run_transcripts(run.take(n)).is_err(),
    ensures
        run_transcripts(run) == run_transcripts(run.take(n)),
    decreases run.len() - n,
{
    if n < run.len() {
        assert(run.take(n + 1).drop_last() =~= run.take(n));
        lemma_run_failure_stays(run, n + 1);
    } else {
        assert(run.take(n) =~= run);
    }
}

/// Builds the gene of a run of items.
fn gene_of_run(run: &Vec<RecordResult>) -> (r: Result<Gene, Error>)
    requires
        run@.len() > 0,
    ensures
        gene_result_view(r) == run_outcome(run@),
{
    let mut transcripts: Vec<(String, Transcript)> = Vec::new();
    let mut i: usize = 0;
    proof {
        assert(run@.take(0).len() == 0);
        assert(given_transcripts_view(transcripts@) =~= Seq::<(Seq<char>, TranscriptView)>::empty());
    }
    while i < run.len()
        invariant
            0 <= i <= run.len(),
            run_transcripts(run@.take(i as int)) == Ok::<Seq<(Seq<char>, TranscriptView)>, Error>(
                given_transcripts_view(transcripts@),
            ),
            forall|k: int| 0 <= k < i ==> (#[trigger] run@[k]).is_ok(),
        decreases run.len() - i,
    {
        proof {
            assert(run@.take(i + 1).drop_last() =~= run@.take(i as int));
            assert(run@.take(i + 1).last() == run@[i as int]);
        }
        match &run[i] {
            Err(e) => {
                proof {
                    lemma_run_failure_stays(run@, i + 1);
                }
                return Err(e.duplicate());
            },
            Ok(record) => {
                match record.to_transcript() {
                    Err(e) => {
                        proof {
                            lemma_run_failure_stays(run@, i + 1);
                        }
                        return Err(e);
                    },
                    Ok(transcript) => {
                        let ghost before = given_transcripts_view(transcripts@);
                        transcripts.push((record.transcript_name.clone(), transcript));
                        proof {
                            assert(given_transcripts_view(transcripts@) =~= before.push(
                                (record.transcript_name@, transcript@),
                            ));
                        }
                    },
                }
            },
        }
        i += 1;
    }
    proof {
        assert(run@.take(run.len() as int) =~= run@);
        assert(run@[0].is_ok());
    }
    match &run[0] {
        Err(e) => Err(e.duplicate()),
        Ok(first) => {
            let built = GeneBuilder::spanning(first.seq_name.as_str()).id(
                first.gene_id.as_str(),
            ).strand_char(first.strand).transcripts(transcripts).build();
            match built {
                Ok(gene) => Ok(gene),
                Err(e) => Err(Error::Feature(e)),
            }
        },
    }
}

/// The item belongs to the open run: no run is open, or the item has the key
/// of the open run.
pub open spec fn joins(open: Seq<RecordResult>, item: RecordResult) -> bool {
    open.len() == 0 || key_of(open[0]) == key_of(item)
}

/// Gathers items into genes as they come in: the items of the run that is
/// still open are kept until an item with another key, or the end, closes it.
pub struct GeneGrouper {
    run: Vec<RecordResult>,
}

impl GeneGrouper {
    /// The items of the open run.
    pub closed spec fn pending(&self) -> Seq<RecordResult> {
        self.run@
    }

    /// A grouper without an open run.
    pub fn new() -> (r: GeneGrouper)
        ensures
            r.pending().len() == 0,
    {
        GeneGrouper { run: Vec::new() }
    }

    /// Takes the next item. An item with the key of the open run joins it. Any
    /// other item closes the open run, whose gene is handed out, and opens a
    /// run of its own.
    pub fn push(&mut self, item: RecordResult) -> (r: Option<Result<Gene, Error>>)
        ensures
            joins(old(self).pending(), item) ==> r.is_none() && final(self).pending() == old(
                self,
            ).pending().push(item),
            !joins(old(self).pending(), item) ==> r.is_some() && gene_result_view(r->0)
                == run_outcome(old(self).pending()) && final(self).pending() == seq![item],
    {
        if self.run.len() == 0 {
            self.run.push(item);
            return None;
        }
        if same_key(&self.run[0], &item) {
            self.run.push(item);
            return None;
        }
        let closed = gene_of_run(&self.run);
        let mut opened: Vec<RecordResult> = Vec::new();
        opened.push(item);
        self.run = opened;
        proof {
            assert(self.run@ =~= seq![item]);
        }
        Some(closed)
    }

    /// Closes the open run, if there is one, and hands out its gene.
    pub fn finish(self) -> (r: Option<Result<Gene, Error>>)
        ensures
            self.pending().len() == 0 ==> r.is_none(),
            self.pending().len() > 0 ==> r.is_some() && gene_result_view(r->0) == run_outcome(
                self.pending(),
            ),
    {
        if self.run.len() == 0 {
            None
        } else {
            Some(gene_of_run(&self.run))
        }
    }
}

/// Gathers a sequence of items into genes: one gene, or one failure, for
/// each run of neighbouring items with the same key, in the order of the
/// runs.
pub fn group_genes(items: Vec<RecordResult>) -> (r: Vec<Result<Gene, Error>>)
    ensures
        r@.len() == genes_of(items@).len(),
        forall|i: int| 0 <= i < r@.len() ==> gene_result_view(#[trigger] r@[i]) == genes_of(items@)[i],
{
    let ghost all = items@;
    let ghost total = items@.len();
    let count = items.len();
    // The items that are still to be taken, the next one last.
    let mut rest = reversed(items);
    let mut grouper = GeneGrouper::new();
    let mut genes: Vec<Result<Gene, Error>> = Vec::new();
    let mut taken: usize = 0;
    let ghost mut closed: Seq<Seq<RecordResult>> = Seq::empty();
    while rest.len() > 0
        invariant
            taken + rest@.len() == total,
            total == all.len(),
            total <= usize::MAX,
            forall|k: int| 0 <= k < rest@.len() ==> #[trigger] rest@[k] == all[total - 1 - k],
            taken == 0 ==> grouper.pending().len() == 0 && closed.len() == 0,
            taken > 0 ==> grouper.pending().len() > 0 && runs_of(all.take(taken as int))
                == closed.push(grouper.pending()),
            genes@.len() == closed.len(),
            forall|k: int|
                0 <= k < genes@.len() ==> gene_result_view(#[trigger] genes@[k]) == run_outcome(
                    closed[k],
                ),
        ensures
            rest@.len() == 0,
        decreases rest@.len(),
    {
        let ghost open = grouper.pending();
        let ghost before = rest@;
        let item = match rest.pop() {
            Some(next) => next,
            None => {
                break ;
            },
        };
        proof {
            assert(item == before[before.len() - 1]);
            assert(item == all[taken as int]);
            assert forall|k: int| 0 <= k < rest@.len() implies #[trigger] rest@[k] == all[total - 1
                - k] by {
                assert(rest@[k] == before[k]);
            }
            assert(all.take(taken + 1).drop_last() =~= all.take(taken as int));
            assert(all.take(taken + 1).last() == item);
            if taken > 0 {
                assert(closed.push(open).last() == open);
                assert(closed.push(open).drop_last() =~= closed);
            } else {
                assert(all.take(0).len() == 0);
            }
        }
        let ghost earlier = runs_of(all.take(taken as int));
        match grouper.push(item) {
            Some(gene) => {
                genes.push(gene);
                proof {
                    assert(!joins(open, item));
                    assert(earlier == closed.push(open));
                    assert(runs_of(all.take(taken + 1)) == earlier.push(seq![item]));
                    closed = closed.push(open);
                }
            },
            None => {
                proof {
                    assert(joins(open, item));
                    if taken > 0 {
                        assert(earlier == closed.push(open));
                        assert(earlier.last() == open);
                        assert(runs_of(all.take(taken + 1)) == earlier.drop_last().push(
                            earlier.last().push(item),
                        ));
                    } else {
                        assert(earlier.len() == 0);
                        assert(runs_of(all.take(taken + 1)) == earlier.push(seq![item]));
                        assert(earlier =~= closed);
                        assert(open.push(item) =~= seq![item]);
                    }
                }
            },
        }
        taken += 1;
    }
    proof {
        assert(all.take(total as int) =~= all);
    }
    let ghost open = grouper.pending();
    match grouper.finish() {
        Some(gene) => {
            genes.push(gene);
            proof {
                let runs = closed.push(open);
                assert(genes_of(all).len() == runs.len());
                assert forall|i: int| 0 <= i < genes@.len() implies gene_result_view(
                    #[trigger] genes@[i],
                ) == genes_of(all)[i] by {
                    if i < closed.len() {
                        assert(runs[i] == closed[i]);
                    }
                }
            }
        },
        None => {},
    }
    genes
}

/// The text is the list text of the numbers that it denotes.
pub open spec fn is_list_text(s: Seq<char>) -> bool {
    match numbers_of_text(s) {
        Some(numbers) => s == list_text(numbers),
        None => false,
    }
}

/// Two rows hold the same in every column.
pub open spec fn same_row(a: RefFlatRecord, b: RefFlatRecord) -> bool {
    &&& a.gene_id@ == b.gene_id@
    &&& a.transcript_name@ == b.transcript_name@
    &&& a.seq_name@ == b.seq_name@
    &&& a.strand == b.strand
    &&& a.trx_start == b.trx_start
    &&& a.trx_end == b.trx_end
    &&& a.coding_start == b.coding_start
    &&& a.coding_end == b.coding_end
    &&& a.num_exons == b.num_exons
    &&& a.exon_starts@ == b.exon_starts@
    &&& a.exon_ends@ == b.exon_ends@
}

/// A row that gives a transcript comes back from it as it was, column by
/// column, if its exon columns are list texts and if, where it has no coding
/// region, its coding start and coding end are the end of the transcript.
pub proof fn row_comes_back(
    record: RefFlatRecord,
    transcript: TranscriptView,
    written: RefFlatRecord,
)
    requires
        record_transcript(record) == Ok::<TranscriptView, Error>(transcript),
        is_row_of(written, transcript, None),
        is_list_text(record.exon_starts@),
        is_list_text(record.exon_ends@),
        record.coding_start == record.coding_end ==> record.coding_end == record.trx_end,
    ensures
        same_row(written, record),
        record_fields(written) == record_fields(record),
{
    let starts = numbers_of_text(record.exon_starts@)->0;
    let ends = numbers_of_text(record.exon_ends@)->0;
    let coords = paired(starts, ends);
    let strand = strand_of_char(record.strand)->0;
    let pieces = layout(coords, record_coding(record), record.trx_start, record.trx_end, strand)->Ok_0;
    exon_pieces_are_the_exons(
        coords,
        record_coding(record),
        record.trx_start,
        record.trx_end,
        strand,
        pieces,
    );
    exon_coords_of_layout(pieces, record.seq_name@, strand);
    assert(exon_coords_of(transcript.features) == coords);
    assert(starts_of(coords) =~= starts);
    assert(ends_of(coords) =~= ends);
    assert(transcript.attributes.dom().contains("gene_id"@));
}

/// The items of the runs, run after run.
pub open spec fn concat_runs(runs: Seq<Seq<RecordResult>>) -> Seq<RecordResult>
    decreases runs.len(),
{
    if runs.len() == 0 {
        Seq::empty()
    } else {
        concat_runs(runs.drop_last()) + runs.last()
    }
}

/// The run has an item, and all its items have one key.
pub open spec fn run_is_uniform(run: Seq<RecordResult>) -> bool {
    run.len() > 0 && forall|i: int| 0 <= i < run.len() ==> key_of(#[trigger] run[i]) == key_of(run[0])
}

/// The runs of a sequence of items part it into the longest stretches of
/// neighbours with one key: put together they give the sequence back, each
/// run has an item and one key for all its items, and no run has the key of
/// the run before it.
pub proof fn runs_are_maximal(items: Seq<RecordResult>)
    ensures
        concat_runs(runs_of(items)) == items,
        forall|k: int| 0 <= k < runs_of(items).len() ==> run_is_uniform(#[trigger] runs_of(items)[k]),
        forall|k: int|
            #![trigger runs_of(items)[k]]
            0 < k < runs_of(items).len() ==> key_of(runs_of(items)[k - 1][0]) != key_of(
                runs_of(items)[k][0],
            ),
    decreases items.len(),
{
    if items.len() == 0 {
        assert(items =~= Seq::<RecordResult>::empty());
    } else {
        let init = items.drop_last();
        let item = items.last();
        let earlier = runs_of(init);
        let runs = runs_of(items);
        runs_are_maximal(init);
        assert(init.push(item) =~= items);
        if earlier.len() > 0 && key_of(earlier.last()[0]) == key_of(item) {
            let grown = earlier.last().push(item);
            assert(runs.drop_last() =~= earlier.drop_last());
            assert(runs.last() == grown);
            assert(run_is_uniform(earlier[earlier.len() - 1]));
            assert(concat_runs(runs) =~= concat_runs(earlier).push(item));
            assert forall|k: int| 0 <= k < runs.len() implies run_is_uniform(#[trigger] runs[k]) by {
                if k < runs.len() - 1 {
                    assert(runs[k] == earlier[k]);
                } else {
                    assert forall|i: int| 0 <= i < grown.len() implies key_of(#[trigger] grown[i])
                        == key_of(grown[0]) by {
                        if i < grown.len() - 1 {
                            assert(grown[i] == earlier.last()[i]);
                        }
                    }
                }
            }
            assert forall|k: int| #![trigger runs[k]] 0 < k < runs.len() implies key_of(
                runs[k - 1][0],
            ) != key_of(runs[k][0]) by {
                assert(runs[k - 1] == earlier[k - 1]);
                if k < runs.len() - 1 {
                    assert(runs[k] == earlier[k]);
                } else {
                    assert(grown[0] == earlier[k][0]);
                }
            }
        } else {
            assert(runs.drop_last() =~= earlier);
            assert(runs.last() =~= seq![item]);
            assert(concat_runs(runs) =~= concat_runs(earlier).push(item));
            assert forall|k: int| 0 <= k < runs.len() implies run_is_uniform(#[trigger] runs[k]) by {
                if k < runs.len() - 1 {
                    assert(runs[k] == earlier[k]);
                }
            }
            assert forall|k: int| #![trigger runs[k]] 0 < k < runs.len() implies key_of(
                runs[k - 1][0],
            ) != key_of(runs[k][0]) by {
                assert(runs[k - 1] == earlier[k - 1]);
                if k < runs.len() - 1 {
                    assert(runs[k] == earlier[k]);
                } else {
                    assert(run_is_uniform(earlier[earlier.len() - 1]));
                }
            }
        }
    }
}

} // verus!
