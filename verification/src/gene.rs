//! Genes: a range on a strand of a sequence with its transcripts, kept under
//! their identifiers in the order in which they were added.

use vstd::prelude::*;
use vstd::string::StringExecFns;
use linked_hash_map::LinkedHashMap;
use crate::attributes::Attributes;
use crate::error::FeatureError;
use crate::feature::{coords_to_interval, resolve_strand_input, resolved_strand, Annotation};
use crate::interval::Interval;
use crate::strand::Strand;
use crate::transcript::{name_view, Transcript, TranscriptView};

verus! {

#[verifier::external_type_specification]
#[verifier::external_body]
#[verifier::reject_recursive_types(K)]
#[verifier::reject_recursive_types(V)]
#[verifier::reject_recursive_types(S)]
pub struct ExLinkedHashMap<K, V, S>(LinkedHashMap<K, V, S>);

/// What a linked hash map of transcripts holds: its keys, as text, with
/// their values, in the order in which `iter` walks them, oldest first.
pub uninterp spec fn linked_entries(map: LinkedHashMap<String, Transcript>) -> Seq<
    (Seq<char>, Transcript),
>;

/// Some entry stands under the identifier.
pub open spec fn has_id(entries: Seq<(Seq<char>, Transcript)>, id: Seq<char>) -> bool {
    exists|i: int| 0 <= i < entries.len() && (#[trigger] entries[i]).0 == id
}

/// No two entries stand under the same identifier.
pub open spec fn ids_distinct(entries: Seq<(Seq<char>, Transcript)>) -> bool {
    forall|i: int, j: int|
        0 <= i < j < entries.len() ==> (#[trigger] entries[i]).0 != (#[trigger] entries[j]).0
}

/// Calls `LinkedHashMap::new`, which makes a map without entries.
#[verifier::external_body]
fn linked_new() -> (map: LinkedHashMap<String, Transcript>)
    ensures
        linked_entries(map) == Seq::<(Seq<char>, Transcript)>::empty(),
{
    LinkedHashMap::new()
}

/// Calls `LinkedHashMap::insert` with a key that the map does not hold yet.
/// The new entry is then attached behind all the others, which stay as they
/// are.
#[verifier::external_body]
fn linked_append(map: &mut LinkedHashMap<String, Transcript>, key: String, value: Transcript)
    requires
        !has_id(linked_entries(*old(map)), key@),
    ensures
        linked_entries(*final(map)) == linked_entries(*old(map)).push((key@, value)),
{
    map.insert(key, value);
}

/// Calls `LinkedHashMap::get`, which hands out the value of the entry under
/// the key, or nothing if the map has no such entry.
#[verifier::external_body]
fn linked_get<'a>(map: &'a LinkedHashMap<String, Transcript>, key: &str) -> (r: Option<
    &'a Transcript,
>)
    ensures
        match r {
            Some(value) => exists|i: int|
                0 <= i < linked_entries(*map).len() && (#[trigger] linked_entries(*map)[i]) == (
                    key@,
                    *value,
                ),
            None => !has_id(linked_entries(*map), key@),
        },
{
    map.get(key)
}

/// Calls `LinkedHashMap::values` and collects what it yields: the values of
/// all entries, oldest first.
#[verifier::external_body]
fn linked_values<'a>(map: &'a LinkedHashMap<String, Transcript>) -> (r: Vec<&'a Transcript>)
    ensures
        r@.len() == linked_entries(*map).len(),
        forall|i: int| 0 <= i < r@.len() ==> *(#[trigger] r@[i]) == linked_entries(*map)[i].1,
{
    map.values().collect()
}

/// The entries of a gene, as values of the model.
pub open spec fn entries_view(entries: Seq<(Seq<char>, Transcript)>) -> Seq<
    (Seq<char>, TranscriptView),
> {
    entries.map_values(|e: (Seq<char>, Transcript)| (e.0, e.1@))
}

/// A gene, as a value of the model.
pub struct GeneView {
    pub id: Option<Seq<char>>,
    pub seq_name: Seq<char>,
    pub start: u64,
    pub end: u64,
    pub strand: Strand,
    pub attributes: Map<Seq<char>, Seq<char>>,
    pub transcripts: Seq<(Seq<char>, TranscriptView)>,
}

/// A gene: a range on a strand of a sequence with its transcripts.
#[derive(Debug)]
pub struct Gene {
    id: Option<String>,
    seq_name: String,
    interval: Interval,
    strand: Strand,
    attributes: Attributes,
    transcripts: LinkedHashMap<String, Transcript>,
}

impl View for Gene {
    type V = GeneView;

    closed spec fn view(&self) -> GeneView {
        GeneView {
            id: name_view(self.id),
            seq_name: self.seq_name@,
            start: self.interval.start(),
            end: self.interval.end(),
            strand: self.strand,
            attributes: self.attributes@,
            transcripts: entries_view(linked_entries(self.transcripts)),
        }
    }
}

/// No two transcripts of the list stand under the same identifier.
pub open spec fn transcript_ids_distinct(transcripts: Seq<(Seq<char>, TranscriptView)>) -> bool {
    forall|i: int, j: int|
        0 <= i < j < transcripts.len() ==> (#[trigger] transcripts[i]).0 != (
        #[trigger] transcripts[j]).0
}

impl Gene {
    #[verifier::type_invariant]
    spec fn distinct(self) -> bool {
        ids_distinct(linked_entries(self.transcripts))
    }

    /// The identifier of the gene, if it has one.
    pub fn id(&self) -> (r: Option<&str>)
        ensures
            match r {
                Some(text) => self@.id == Some(text@),
                None => self@.id.is_none(),
            },
    {
        match &self.id {
            Some(text) => Some(text.as_str()),
            None => None,
        }
    }

    /// The transcripts of the gene under their identifiers, in the order in
    /// which they were added.
    pub fn transcripts(&self) -> (r: &LinkedHashMap<String, Transcript>)
        ensures
            entries_view(linked_entries(*r)) == self@.transcripts,
            transcript_ids_distinct(self@.transcripts),
    {
        proof {
            use_type_invariant(self);
            let entries = linked_entries(self.transcripts);
            assert forall|i: int, j: int| 0 <= i < j < entries_view(entries).len() implies (
            #[trigger] entries_view(entries)[i]).0 != (#[trigger] entries_view(entries)[j]).0 by {
                assert(entries[i].0 != entries[j].0);
            }
        }
        &self.transcripts
    }

    /// The transcripts of the gene, in the order in which they were added.
    pub fn transcript_list(&self) -> (r: Vec<&Transcript>)
        ensures
            r@.len() == self@.transcripts.len(),
            forall|i: int| 0 <= i < r@.len() ==> (#[trigger] r@[i])@ == self@.transcripts[i].1,
    {
        linked_values(&self.transcripts)
    }

    /// The transcript under the identifier, if the gene has one.
    pub fn transcript(&self, id: &str) -> (r: Option<&Transcript>)
        ensures
            match r {
                Some(found) => exists|i: int|
                    0 <= i < self@.transcripts.len() && (#[trigger] self@.transcripts[i]) == (
                        id@,
                        found@,
                    ),
                None => forall|i: int|
                    0 <= i < self@.transcripts.len() ==> (#[trigger] self@.transcripts[i]).0
                        != id@,
            },
    {
        let found = linked_get(&self.transcripts, id);
        proof {
            let entries = linked_entries(self.transcripts);
            if let Some(value) = found {
                let i = choose|i: int|
                    0 <= i < entries.len() && (#[trigger] entries[i]) == (id@, *value);
                assert(self@.transcripts[i] == (id@, value@));
            } else {
                assert forall|i: int| 0 <= i < self@.transcripts.len() implies (
                #[trigger] self@.transcripts[i]).0 != id@ by {
                    assert(entries[i].0 == self@.transcripts[i].0);
                }
            }
        }
        found
    }
}

impl Annotation for Gene {
    open spec fn seq_name_view(&self) -> Seq<char> {
        self@.seq_name
    }

    open spec fn bounds(&self) -> (u64, u64) {
        (self@.start, self@.end)
    }

    open spec fn attributes_view(&self) -> Map<Seq<char>, Seq<char>> {
        self@.attributes
    }

    open spec fn strand_view(&self) -> Strand {
        self@.strand
    }

    fn seq_name(&self) -> (r: &str) {
        self.seq_name.as_str()
    }

    fn interval(&self) -> (r: &Interval) {
        &self.interval
    }

    fn attributes(&self) -> (r: &Attributes) {
        &self.attributes
    }

    fn attribute(&self, key: &str) -> (r: Option<&str>) {
        match self.attributes.get(key) {
            Some(value) => Some(value.as_str()),
            None => None,
        }
    }

    fn strand(&self) -> (r: &Strand) {
        &self.strand
    }
}

/// The transcripts given to a builder, as values of the model.
pub open spec fn given_transcripts_view(transcripts: Seq<(String, Transcript)>) -> Seq<
    (Seq<char>, TranscriptView),
> {
    transcripts.map_values(|e: (String, Transcript)| (e.0@, e.1@))
}

/// The lowest start and the highest end of the transcripts of a list, if it
/// has any.
pub open spec fn aggregate_bounds(transcripts: Seq<(Seq<char>, TranscriptView)>) -> Option<
    (u64, u64),
>
    decreases transcripts.len(),
{
    if transcripts.len() == 0 {
        None
    } else {
        let last = transcripts.last().1;
        match aggregate_bounds(transcripts.drop_last()) {
            None => Some((last.start, last.end)),
            Some((lo, hi)) => Some(
                (
                    if last.start < lo {
                        last.start
                    } else {
                        lo
                    },
                    if last.end > hi {
                        last.end
                    } else {
                        hi
                    },
                ),
            ),
        }
    }
}

/// Why the transcript at position `at` does not fit a gene on `seq_name` and
/// `strand`, if it does not: it lies on another sequence, or on another
/// strand, or an earlier transcript has its identifier.
pub open spec fn transcript_fault(
    transcripts: Seq<(Seq<char>, TranscriptView)>,
    at: int,
    seq_name: Seq<char>,
    strand: Strand,
) -> Option<FeatureError> {
    if transcripts[at].1.seq_name != seq_name {
        Some(FeatureError::SubFeatureIntervalError)
    } else if transcripts[at].1.strand != strand {
        Some(FeatureError::ConflictingStrandError)
    } else if exists|j: int| 0 <= j < at && (#[trigger] transcripts[j]).0 == transcripts[at].0 {
        Some(FeatureError::SubFeatureIntervalError)
    } else {
        None
    }
}

/// The fault of the first transcript that does not fit, if any does not.
pub open spec fn first_fault(
    transcripts: Seq<(Seq<char>, TranscriptView)>,
    seq_name: Seq<char>,
    strand: Strand,
) -> Option<FeatureError>
    decreases transcripts.len(),
{
    if transcripts.len() == 0 {
        None
    } else {
        match first_fault(transcripts.drop_last(), seq_name, strand) {
            Some(e) => Some(e),
            None => transcript_fault(transcripts, transcripts.len() - 1, seq_name, strand),
        }
    }
}

/// The bounds that a gene gets: those given, or else the lowest start and the
/// highest end of its transcripts.
pub open spec fn resolved_bounds(
    bounds: Option<(u64, u64)>,
    transcripts: Seq<(Seq<char>, TranscriptView)>,
) -> Option<(u64, u64)> {
    match bounds {
        Some(given) => Some(given),
        None => aggregate_bounds(transcripts),
    }
}

/// The gene that a builder with these settings gives, or the reason why it
/// gives none.
///
/// The range is checked first: one that starts after its end is refused, and
/// so is a gene without given bounds and without transcripts. The strand is
/// checked second. Then each transcript has to lie on the gene's sequence and
/// strand, under an identifier that no earlier one has.
pub open spec fn gene_outcome(
    id: Option<Seq<char>>,
    seq_name: Seq<char>,
    bounds: Option<(u64, u64)>,
    strand: Option<Strand>,
    strand_char: Option<char>,
    attributes: Map<Seq<char>, Seq<char>>,
    transcripts: Seq<(Seq<char>, TranscriptView)>,
) -> Result<GeneView, FeatureError> {
    match resolved_bounds(bounds, transcripts) {
        None => Err(FeatureError::IntervalError),
        Some((start, end)) => if start > end {
            Err(FeatureError::IntervalError)
        } else {
            match resolved_strand(strand, strand_char) {
                Err(e) => Err(e),
                Ok(settled) => match first_fault(transcripts, seq_name, settled) {
                    Some(e) => Err(e),
                    None => Ok(
                        GeneView {
                            id,
                            seq_name,
                            start,
                            end,
                            strand: settled,
                            attributes,
                            transcripts,
                        },
                    ),
                },
            }
        },
    }
}

/// What a gene is to be built from.
#[derive(Debug)]
pub struct GeneBuilder {
    pub seq_name: String,
    /// The bounds of the gene; without them the transcripts give the bounds.
    pub bounds: Option<(u64, u64)>,
    pub id: Option<String>,
    pub strand: Option<Strand>,
    pub strand_char: Option<char>,
    pub attributes: Attributes,
    /// The transcripts with their identifiers, in order.
    pub transcripts: Vec<(String, Transcript)>,
}

impl GeneBuilder {
    /// The gene that the builder gives, or the reason why it gives none.
    pub open spec fn outcome(self) -> Result<GeneView, FeatureError> {
        gene_outcome(
            name_view(self.id),
            self.seq_name@,
            self.bounds,
            self.strand,
            self.strand_char,
            self.attributes@,
            given_transcripts_view(self.transcripts@),
        )
    }

    /// A builder for a gene on `seq_name` over `[start, end)` with nothing
    /// else set.
    pub fn new(seq_name: &str, start: u64, end: u64) -> (r: GeneBuilder)
        ensures
            r.seq_name@ == seq_name@,
            r.bounds == Some((start, end)),
            r.id.is_none(),
            r.strand.is_none(),
            r.strand_char.is_none(),
            r.attributes@ == Map::<Seq<char>, Seq<char>>::empty(),
            r.transcripts@.len() == 0,
    {
        GeneBuilder {
            seq_name: String::from_str(seq_name),
            bounds: Some((start, end)),
            id: None,
            strand: None,
            strand_char: None,
            attributes: Attributes::new(),
            transcripts: Vec::new(),
        }
    }

    /// A builder for a gene on `seq_name` that takes its bounds from its
    /// transcripts.
    pub fn spanning(seq_name: &str) -> (r: GeneBuilder)
        ensures
            r.seq_name@ == seq_name@,
            r.bounds.is_none(),
            r.id.is_none(),
            r.strand.is_none(),
            r.strand_char.is_none(),
            r.attributes@ == Map::<Seq<char>, Seq<char>>::empty(),
            r.transcripts@.len() == 0,
    {
        GeneBuilder {
            seq_name: String::from_str(seq_name),
            bounds: None,
            id: None,
            strand: None,
            strand_char: None,
            attributes: Attributes::new(),
            transcripts: Vec::new(),
        }
    }

    /// Sets the identifier.
    pub fn id(self, id: &str) -> (r: GeneBuilder)
        ensures
            name_view(r.id) == Some(id@),
            r == (GeneBuilder { id: r.id, ..self }),
    {
        let mut next = self;
        next.id = Some(String::from_str(id));
        next
    }

    /// Sets the strand value.
    pub fn strand(self, strand: Strand) -> (r: GeneBuilder)
        ensures
            r == (GeneBuilder { strand: Some(strand), ..self }),
    {
        let mut next = self;
        next.strand = Some(strand);
        next
    }

    /// Sets the strand character.
    pub fn strand_char(self, strand_char: char) -> (r: GeneBuilder)
        ensures
            r == (GeneBuilder { strand_char: Some(strand_char), ..self }),
    {
        let mut next = self;
        next.strand_char = Some(strand_char);
        next
    }

    /// Puts `value` under the attribute `key`.
    pub fn attribute(self, key: &str, value: &str) -> (r: GeneBuilder)
        ensures
            r.attributes@ == self.attributes@.insert(key@, value@),
            r == (GeneBuilder { attributes: r.attributes, ..self }),
    {
        let mut next = self;
        next.attributes.insert(String::from_str(key), String::from_str(value));
        next
    }

    /// Adds a transcript under an identifier, behind those added before.
    pub fn transcript(self, id: &str, transcript: Transcript) -> (r: GeneBuilder)
        ensures
            given_transcripts_view(r.transcripts@) == given_transcripts_view(
                self.transcripts@,
            ).push((id@, transcript@)),
            r == (GeneBuilder { transcripts: r.transcripts, ..self }),
    {
        let mut next = self;
        next.transcripts.push((String::from_str(id), transcript));
        proof {
            assert(given_transcripts_view(next.transcripts@) =~= given_transcripts_view(
                self.transcripts@,
            ).push((id@, transcript@)));
        }
        next
    }

    /// Gives all the transcripts with their identifiers, in order.
    pub fn transcripts(self, transcripts: Vec<(String, Transcript)>) -> (r: GeneBuilder)
        ensures
            r == (GeneBuilder { transcripts, ..self }),
    {
        let mut next = self;
        next.transcripts = transcripts;
        next
    }

    /// The lowest start and the highest end of the transcripts given so far.
    fn span_of_transcripts(&self) -> (r: Option<(u64, u64)>)
        ensures
            r == aggregate_bounds(given_transcripts_view(self.transcripts@)),
    {
        let mut span: Option<(u64, u64)> = None;
        let mut i: usize = 0;
        while i < self.transcripts.len()
            invariant
                0 <= i <= self.transcripts.len(),
                span == aggregate_bounds(
                    given_transcripts_view(self.transcripts@).take(i as int),
                ),
            decreases self.transcripts.len() - i,
        {
            let ghost views = given_transcripts_view(self.transcripts@);
            proof {
                assert(views.take(i + 1).drop_last() =~= views.take(i as int));
                assert(views.take(i + 1).last() == (
                    self.transcripts@[i as int].0@,
                    self.transcripts@[i as int].1@,
                ));
            }
            let interval = self.transcripts[i].1.interval();
            let (start, end) = (interval.start(), interval.end());
            span = match span {
                None => Some((start, end)),
                Some((lo, hi)) => Some(
                    (
                        if start < lo {
                            start
                        } else {
                            lo
                        },
                        if end > hi {
                            end
                        } else {
                            hi
                        },
                    ),
                ),
            };
            i += 1;
        }
        proof {
            let views = given_transcripts_view(self.transcripts@);
            assert(views.take(self.transcripts.len() as int) =~= views);
        }
        span
    }

    /// Builds the gene: the range is checked first, the strand second, the
    /// transcripts last and in order.
    pub fn build(self) -> (r: Result<Gene, FeatureError>)
        ensures
            match r {
                Ok(gene) => self.outcome() == Ok::<GeneView, FeatureError>(gene@),
                Err(e) => self.outcome() == Err::<GeneView, FeatureError>(e),
            },
    {
        let bounds = match self.bounds {
            Some(given) => Some(given),
            None => self.span_of_transcripts(),
        };
        let (start, end) = match bounds {
            Some(pair) => pair,
            None => {
                return Err(FeatureError::IntervalError);
            },
        };
        let interval = coords_to_interval(start, end)?;
        let strand = resolve_strand_input(self.strand, self.strand_char)?;
        let ghost given = given_transcripts_view(self.transcripts@);
        let count = self.transcripts.len();
        let ghost total = count as nat;
        let mut map = linked_new();
        // The transcripts that are still to be added, the next one last.
        let mut rest = reversed(self.transcripts);
        let seq_name = self.seq_name;
        let mut taken: usize = 0;
        while rest.len() > 0
            invariant
                taken + rest@.len() == total,
                given.len() == total,
                total <= usize::MAX,
                seq_name == self.seq_name,
                given == given_transcripts_view(self.transcripts@),
                resolved_bounds(self.bounds, given) == Some((start, end)),
                start <= end,
                resolved_strand(self.strand, self.strand_char) == Ok::<Strand, FeatureError>(
                    strand,
                ),
                forall|k: int|
                    0 <= k < rest@.len() ==> (#[trigger] rest@[k]).0@ == given[total - 1 - k].0
                        && rest@[k].1@ == given[total - 1 - k].1,
                entries_view(linked_entries(map)) == given.take(taken as int),
                ids_distinct(linked_entries(map)),
                first_fault(given.take(taken as int), seq_name@, strand).is_none(),
            ensures
                rest@.len() == 0,
            decreases rest@.len(),
        {
            let ghost entries = linked_entries(map);
            let ghost before = rest@;
            let (id, transcript) = match rest.pop() {
                Some(next) => next,
                None => {
                    break ;
                },
            };
            proof {
                assert(id@ == before[before.len() - 1].0@);
                assert forall|k: int| 0 <= k < rest@.len() implies (#[trigger] rest@[k]).0@
                    == given[total - 1 - k].0 && rest@[k].1@ == given[total - 1 - k].1 by {
                    assert(rest@[k] == before[k]);
                }
                assert(given.take(taken + 1).drop_last() =~= given.take(taken as int));
                assert(given.take(taken + 1).last() == given[taken as int]);
                assert(id@ == given[taken as int].0);
                assert(transcript@ == given[taken as int].1);
                assert forall|j: int| 0 <= j < taken implies (#[trigger] given.take(taken + 1)[j])
                    == entries_view(entries)[j] by {
                    assert(given.take(taken as int)[j] == given.take(taken + 1)[j]);
                }
            }
            let same_name = str_equal(transcript.seq_name(), seq_name.as_str());
            let same_strand = *transcript.strand() == strand;
            let known = linked_get(&map, id.as_str()).is_some();
            proof {
                let upto = given.take(taken + 1);
                if has_id(entries, id@) {
                    let j = choose|j: int| 0 <= j < entries.len() && (#[trigger] entries[j]).0 == id@;
                    assert(upto[j] == entries_view(entries)[j]);
                    assert(upto[j].0 == upto[taken as int].0);
                } else {
                    assert forall|j: int| 0 <= j < taken implies (#[trigger] upto[j]).0
                        != upto[taken as int].0 by {
                        assert(upto[j] == entries_view(entries)[j]);
                        assert(entries[j].0 != id@);
                    }
                }
            }
            if !same_name {
                proof {
                    lemma_fault_stays(given, taken + 1, seq_name@, strand);
                }
                return Err(FeatureError::SubFeatureIntervalError);
            }
            if !same_strand {
                proof {
                    lemma_fault_stays(given, taken + 1, seq_name@, strand);
                }
                return Err(FeatureError::ConflictingStrandError);
            }
            if known {
                proof {
                    lemma_fault_stays(given, taken + 1, seq_name@, strand);
                }
                return Err(FeatureError::SubFeatureIntervalError);
            }
            linked_append(&mut map, id, transcript);
            proof {
                let after = linked_entries(map);
                assert(entries_view(after) =~= given.take(taken + 1)) by {
                    assert forall|j: int| 0 <= j < taken + 1 implies entries_view(after)[j]
                        == given.take(taken + 1)[j] by {
                        if j < taken {
                            assert(after[j] == entries[j]);
                            assert(entries_view(entries)[j] == given.take(taken as int)[j]);
                        }
                    }
                }
                assert forall|a: int, b: int| 0 <= a < b < after.len() implies (
                #[trigger] after[a]).0 != (#[trigger] after[b]).0 by {
                    assert(after[a] == entries[a]);
                    if b < entries.len() {
                        assert(after[b] == entries[b]);
                    }
                }
            }
            taken += 1;
        }
        proof {
            assert(given.take(total as int) =~= given);
        }
        Ok(
            Gene {
                id: self.id,
                seq_name,
                interval,
                strand,
                attributes: self.attributes,
                transcripts: map,
            },
        )
    }
}

/// The items in the opposite order.
pub(crate) fn reversed<T>(items: Vec<T>) -> (r: Vec<T>)
    ensures
        r@.len() == items@.len(),
        forall|k: int| 0 <= k < r@.len() ==> #[trigger] r@[k] == items@[items@.len() - 1 - k],
{
    let ghost all = items@;
    let mut rest = items;
    let mut out: Vec<T> = Vec::new();
    while rest.len() > 0
        invariant
            rest@.len() + out@.len() == all.len(),
            rest@ == all.take(rest@.len() as int),
            forall|k: int| 0 <= k < out@.len() ==> #[trigger] out@[k] == all[all.len() - 1 - k],
        decreases rest@.len(),
    {
        if let Some(last) = rest.pop() {
            out.push(last);
        }
    }
    out
}

/// Whether two texts are the same.
fn str_equal(a: &str, b: &str) -> (r: bool)
    ensures
        r == (a@ == b@),
{
    let left = a.to_owned();
    let right = b.to_owned();
    left == right
}

/// A fault among the first `n` transcripts is the fault of the whole list.
proof fn lemma_fault_stays(
    transcripts: Seq<(Seq<char>, TranscriptView)>,
    n: int,
    seq_name: Seq<char>,
    strand: Strand,
)
    requires
        0 <= n <= transcripts.len(),
        first_fault(transcripts.take(n), seq_name, strand).is_some(),
    ensures
        first_fault(transcripts, seq_name, strand) == first_fault(
            transcripts.take(n),
            seq_name,
            strand,
        ),
    decreases transcripts.len() - n,
{
    if n < transcripts.len() {
        assert(transcripts.take(n + 1).drop_last() =~= transcripts.take(n));
        lemma_fault_stays(transcripts, n + 1, seq_name, strand);
    } else {
        assert(transcripts.take(n) =~= transcripts);
    }
}

} // verus!
