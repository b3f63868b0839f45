//! The sub-feature layout of a transcript, inferred from the bounds of its
//! exons and of its coding region.
//!
//! The exons are walked in the order given. Two counters, each starting at
//! three, hold how many bases of the codon at the lower and at the upper
//! bound of the coding region are still to be placed; a codon that meets an
//! exon boundary is placed in two pieces.

use vstd::prelude::*;
use crate::error::FeatureError;
use crate::kind::{
    lower_codon, lower_codon_of, lower_utr, lower_utr_of, upper_codon, upper_codon_of,
    upper_utr, upper_utr_of, TxFeature,
};
use crate::strand::Strand;

verus! {

/// One piece of a layout: a kind and the half-open range it covers.
#[derive(Clone, Copy, Debug, PartialEq, Eq, Structural)]
pub struct Piece {
    pub kind: TxFeature,
    pub start: u64,
    pub end: u64,
}

/// The pieces laid out so far and the codon bases that are still to be placed.
pub struct Progress {
    pub pieces: Seq<Piece>,
    pub lower_left: int,
    pub upper_left: int,
}

/// The piece of the given kind over `[start, end)`.
pub open spec fn piece(kind: TxFeature, start: int, end: int) -> Piece {
    Piece { kind, start: start as u64, end: end as u64 }
}

/// The lesser of two numbers.
pub open spec fn least(a: int, b: int) -> int {
    if a <= b {
        a
    } else {
        b
    }
}

/// Nothing laid out, both codons outstanding in full.
pub open spec fn initial() -> Progress {
    Progress { pieces: Seq::empty(), lower_left: 3, upper_left: 3 }
}

/// An exon that ends at or below the coding start: untranslated as a whole.
pub open spec fn lay_below(st: Progress, s: u64, e: u64, strand: Strand) -> Progress {
    Progress {
        pieces: st.pieces.push(piece(TxFeature::Exon, s as int, e as int)).push(
            piece(lower_utr(strand), s as int, e as int),
        ),
        ..st
    }
}

/// An exon that holds the coding start `cs` inside: untranslated up to `cs`,
/// then the lower codon as far as the exon and the counter allow, then coding
/// sequence from `cs` to the exon's end.
pub open spec fn lay_lower_bound(st: Progress, s: u64, e: u64, cs: u64, strand: Strand) -> Progress {
    let head = st.pieces.push(piece(TxFeature::Exon, s as int, e as int)).push(
        piece(lower_utr(strand), s as int, cs as int),
    );
    match lower_codon(strand) {
        Some(codon) => {
            let take = least(st.lower_left, e - cs);
            Progress {
                pieces: head.push(piece(codon, cs as int, cs + take)).push(
                    piece(TxFeature::CDS, cs as int, e as int),
                ),
                lower_left: st.lower_left - take,
                upper_left: st.upper_left,
            }
        },
        None => Progress {
            pieces: head.push(piece(TxFeature::CDS, cs as int, e as int)),
            ..st
        },
    }
}

/// An exon inside the coding region that ends below the coding end: what is
/// left of the lower codon first, then coding sequence over the whole exon.
pub open spec fn lay_inside(st: Progress, s: u64, e: u64, strand: Strand) -> Progress {
    let head = st.pieces.push(piece(TxFeature::Exon, s as int, e as int));
    match lower_codon(strand) {
        Some(codon) if st.lower_left > 0 => {
            let take = least(st.lower_left, e - s);
            Progress {
                pieces: head.push(piece(codon, s as int, s + take)).push(
                    piece(TxFeature::CDS, s as int, e as int),
                ),
                lower_left: st.lower_left - take,
                upper_left: st.upper_left,
            }
        },
        _ => Progress { pieces: head.push(piece(TxFeature::CDS, s as int, e as int)), ..st },
    }
}

/// An exon that ends exactly at the coding end: coding sequence over the whole
/// exon, then the upper codon at its end if the exon is long enough for all
/// that is left of it.
pub open spec fn lay_coding_end(st: Progress, s: u64, e: u64, strand: Strand) -> Progress {
    let head = st.pieces.push(piece(TxFeature::Exon, s as int, e as int)).push(
        piece(TxFeature::CDS, s as int, e as int),
    );
    match upper_codon(strand) {
        Some(codon) if e - s >= st.upper_left => Progress {
            pieces: head.push(piece(codon, e - st.upper_left, e as int)),
            lower_left: st.lower_left,
            upper_left: 0,
        },
        _ => Progress { pieces: head, ..st },
    }
}

/// Before an exon that holds only `within` bases of an upper codon of which
/// more are left: the missing bases are taken from the end of the piece laid
/// out last, as far down as coordinate zero.
pub open spec fn lay_carry_back(st: Progress, within: int, strand: Strand) -> Progress {
    match upper_codon(strand) {
        Some(codon) if st.pieces.len() > 0 && st.pieces.last().end > 0 => {
            let prev_end = st.pieces.last().end;
            let take = least(st.upper_left - within, prev_end as int);
            Progress {
                pieces: st.pieces.push(piece(codon, prev_end - take, prev_end as int)),
                lower_left: st.lower_left,
                upper_left: st.upper_left - take,
            }
        },
        _ => st,
    }
}

/// An exon that starts inside the coding region and holds the coding end `ce`
/// inside: coding sequence up to `ce`, the upper codon ending at `ce`, then
/// untranslated up to the exon's end.
pub open spec fn lay_upper_bound(st: Progress, s: u64, e: u64, ce: u64, strand: Strand) -> Progress {
    let within = ce - s;
    let before = if within < st.upper_left {
        lay_carry_back(st, within, strand)
    } else {
        st
    };
    let head = before.pieces.push(piece(TxFeature::Exon, s as int, e as int)).push(
        piece(TxFeature::CDS, s as int, ce as int),
    );
    match upper_codon(strand) {
        Some(codon) => {
            let take = least(before.upper_left, within);
            Progress {
                pieces: head.push(piece(codon, ce - take, ce as int)).push(
                    piece(upper_utr(strand), ce as int, e as int),
                ),
                lower_left: before.lower_left,
                upper_left: before.upper_left - take,
            }
        },
        None => Progress {
            pieces: head.push(piece(upper_utr(strand), ce as int, e as int)),
            ..before
        },
    }
}

/// An exon that starts at or above the coding end: untranslated as a whole.
pub open spec fn lay_above(st: Progress, s: u64, e: u64, strand: Strand) -> Progress {
    Progress {
        pieces: st.pieces.push(piece(TxFeature::Exon, s as int, e as int)).push(
            piece(upper_utr(strand), s as int, e as int),
        ),
        ..st
    }
}

/// What one exon `[s, e)` adds to the layout for the coding region `[cs, ce)`.
pub open spec fn lay_exon(st: Progress, exon: (u64, u64), cs: u64, ce: u64, strand: Strand) -> Progress {
    let (s, e) = exon;
    if e <= cs {
        lay_below(st, s, e, strand)
    } else if s < cs {
        lay_lower_bound(st, s, e, cs, strand)
    } else if e < ce {
        lay_inside(st, s, e, strand)
    } else if e == ce {
        lay_coding_end(st, s, e, strand)
    } else if s < ce {
        lay_upper_bound(st, s, e, ce, strand)
    } else {
        lay_above(st, s, e, strand)
    }
}

/// The layout after all the given exons, taken in order.
pub open spec fn lay_exons(exons: Seq<(u64, u64)>, cs: u64, ce: u64, strand: Strand) -> Progress
    decreases exons.len(),
{
    if exons.len() == 0 {
        initial()
    } else {
        lay_exon(lay_exons(exons.drop_last(), cs, ce, strand), exons.last(), cs, ce, strand)
    }
}

/// One exon piece for each pair, in the order and with the bounds given.
pub open spec fn exons_only(exons: Seq<(u64, u64)>) -> Seq<Piece> {
    Seq::new(exons.len(), |i: int| piece(TxFeature::Exon, exons[i].0 as int, exons[i].1 as int))
}

/// Every exon has at least one base.
pub open spec fn exons_well_formed(exons: Seq<(u64, u64)>) -> bool {
    forall|i: int| 0 <= i < exons.len() ==> (#[trigger] exons[i]).0 < exons[i].1
}

/// The lowest exon start is `start` and the highest exon end is `end`.
pub open spec fn exons_span(exons: Seq<(u64, u64)>, start: u64, end: u64) -> bool {
    &&& exists|i: int| 0 <= i < exons.len() && (#[trigger] exons[i]).0 == start
    &&& exists|i: int| 0 <= i < exons.len() && (#[trigger] exons[i]).1 == end
    &&& forall|i: int| 0 <= i < exons.len() ==> start <= (#[trigger] exons[i]).0
    &&& forall|i: int| 0 <= i < exons.len() ==> (#[trigger] exons[i]).1 <= end
}

/// The layout of a transcript over `[start, end)`, or the reason why it has
/// none.
///
/// Without exons the transcript is incomplete. Each exon needs a base, and
/// the exons together have to reach from `start` to `end`. A coding region
/// must not end before it starts; an empty one counts as none; any other has
/// to lie within `[start, end)`.
pub open spec fn layout(
    exons: Seq<(u64, u64)>,
    coding: Option<(u64, u64)>,
    start: u64,
    end: u64,
    strand: Strand,
) -> Result<Seq<Piece>, FeatureError> {
    if exons.len() == 0 {
        Err(FeatureError::IncompleteTranscriptError)
    } else if !exons_well_formed(exons) || !exons_span(exons, start, end) {
        Err(FeatureError::SubFeatureIntervalError)
    } else {
        match coding {
            None => Ok(exons_only(exons)),
            Some((cs, ce)) => if cs > ce {
                Err(FeatureError::SubFeatureIntervalError)
            } else if cs == ce {
                Ok(exons_only(exons))
            } else if cs < start || ce > end {
                Err(FeatureError::SubFeatureIntervalError)
            } else {
                Ok(lay_exons(exons, cs, ce, strand).pieces)
            },
        }
    }
}

/// Every piece of the sequence starts at or below its end.
pub open spec fn pieces_ordered(pieces: Seq<Piece>) -> bool {
    forall|i: int| 0 <= i < pieces.len() ==> (#[trigger] pieces[i]).start <= pieces[i].end
}

fn least_of(a: u64, b: u64) -> (r: u64)
    ensures
        r == least(a as int, b as int),
{
    if a <= b {
        a
    } else {
        b
    }
}

/// Checks that every exon has a base and finds the lowest start and the
/// highest end.
fn exon_bounds(exons: &Vec<(u64, u64)>) -> (r: Option<(u64, u64)>)
    requires
        exons.len() > 0,
    ensures
        match r {
            Some((lo, hi)) => exons_well_formed(exons@) && exons_span(exons@, lo, hi),
            None => !exons_well_formed(exons@),
        },
{
    let mut lo: u64 = exons[0].0;
    let mut hi: u64 = exons[0].1;
    let mut i: usize = 0;
    while i < exons.len()
        invariant
            0 <= i <= exons.len(),
            exons.len() > 0,
            forall|j: int| 0 <= j < i ==> (#[trigger] exons@[j]).0 < exons@[j].1,
            forall|j: int| 0 <= j < i ==> lo <= (#[trigger] exons@[j]).0,
            forall|j: int| 0 <= j < i ==> (#[trigger] exons@[j]).1 <= hi,
            exists|j: int| 0 <= j < exons.len() && (#[trigger] exons@[j]).0 == lo,
            exists|j: int| 0 <= j < exons.len() && (#[trigger] exons@[j]).1 == hi,
        decreases exons.len() - i,
    {
        let (s, e) = exons[i];
        if s >= e {
            return None;
        }
        if s < lo {
            lo = s;
        }
        if e > hi {
            hi = e;
        }
        i += 1;
    }
    Some((lo, hi))
}

/// The layout under construction.
struct Cursor {
    pieces: Vec<Piece>,
    lower_left: u64,
    upper_left: u64,
}

impl Cursor {
    spec fn progress(self) -> Progress {
        Progress {
            pieces: self.pieces@,
            lower_left: self.lower_left as int,
            upper_left: self.upper_left as int,
        }
    }

    spec fn sound(self) -> bool {
        self.lower_left <= 3 && self.upper_left <= 3 && pieces_ordered(self.pieces@)
    }

    fn put(&mut self, kind: TxFeature, start: u64, end: u64)
        requires
            start <= end,
            pieces_ordered(old(self).pieces@),
        ensures
            final(self).pieces@ == old(self).pieces@.push(piece(kind, start as int, end as int)),
            final(self).lower_left == old(self).lower_left,
            final(self).upper_left == old(self).upper_left,
            pieces_ordered(final(self).pieces@),
    {
        self.pieces.push(Piece { kind, start, end });
    }

    fn put_below(&mut self, s: u64, e: u64, strand: Strand)
        requires
            s < e,
            old(self).sound(),
        ensures
            final(self).progress() == lay_below(old(self).progress(), s, e, strand),
            final(self).sound(),
    {
        self.put(TxFeature::Exon, s, e);
        self.put(lower_utr_of(strand), s, e);
    }

    fn put_lower_bound(&mut self, s: u64, e: u64, cs: u64, strand: Strand)
        requires
            s < cs < e,
            old(self).sound(),
        ensures
            final(self).progress() == lay_lower_bound(old(self).progress(), s, e, cs, strand),
            final(self).sound(),
    {
        self.put(TxFeature::Exon, s, e);
        self.put(lower_utr_of(strand), s, cs);
        if let Some(codon) = lower_codon_of(strand) {
            let take = least_of(self.lower_left, e - cs);
            self.put(codon, cs, cs + take);
            self.lower_left = self.lower_left - take;
        }
        self.put(TxFeature::CDS, cs, e);
    }

    fn put_inside(&mut self, s: u64, e: u64, strand: Strand)
        requires
            s < e,
            old(self).sound(),
        ensures
            final(self).progress() == lay_inside(old(self).progress(), s, e, strand),
            final(self).sound(),
    {
        self.put(TxFeature::Exon, s, e);
        if self.lower_left > 0 {
            if let Some(codon) = lower_codon_of(strand) {
                let take = least_of(self.lower_left, e - s);
                self.put(codon, s, s + take);
                self.lower_left = self.lower_left - take;
            }
        }
        self.put(TxFeature::CDS, s, e);
    }

    fn put_coding_end(&mut self, s: u64, e: u64, strand: Strand)
        requires
            s < e,
            old(self).sound(),
        ensures
            final(self).progress() == lay_coding_end(old(self).progress(), s, e, strand),
            final(self).sound(),
    {
        self.put(TxFeature::Exon, s, e);
        self.put(TxFeature::CDS, s, e);
        if e - s >= self.upper_left {
            if let Some(codon) = upper_codon_of(strand) {
                self.put(codon, e - self.upper_left, e);
                self.upper_left = 0;
            }
        }
    }

    fn put_carry_back(&mut self, within: u64, strand: Strand)
        requires
            within < old(self).upper_left,
            old(self).sound(),
        ensures
            final(self).progress() == lay_carry_back(old(self).progress(), within as int, strand),
            final(self).sound(),
    {
        let n = self.pieces.len();
        if n > 0 {
            let prev_end = self.pieces[n - 1].end;
            if prev_end > 0 {
                if let Some(codon) = upper_codon_of(strand) {
                    let take = least_of(self.upper_left - within, prev_end);
                    self.put(codon, prev_end - take, prev_end);
                    self.upper_left = self.upper_left - take;
                }
            }
        }
    }

    fn put_upper_bound(&mut self, s: u64, e: u64, ce: u64, strand: Strand)
        requires
            s < ce < e,
            old(self).sound(),
        ensures
            final(self).progress() == lay_upper_bound(old(self).progress(), s, e, ce, strand),
            final(self).sound(),
    {
        let within = ce - s;
        if within < self.upper_left {
            self.put_carry_back(within, strand);
        }
        self.put(TxFeature::Exon, s, e);
        self.put(TxFeature::CDS, s, ce);
        if let Some(codon) = upper_codon_of(strand) {
            let take = least_of(self.upper_left, within);
            self.put(codon, ce - take, ce);
            self.upper_left = self.upper_left - take;
        }
        self.put(upper_utr_of(strand), ce, e);
    }

    fn put_above(&mut self, s: u64, e: u64, strand: Strand)
        requires
            s < e,
            old(self).sound(),
        ensures
            final(self).progress() == lay_above(old(self).progress(), s, e, strand),
            final(self).sound(),
    {
        self.put(TxFeature::Exon, s, e);
        self.put(upper_utr_of(strand), s, e);
    }

    fn put_exon(&mut self, s: u64, e: u64, cs: u64, ce: u64, strand: Strand)
        requires
            s < e,
            cs < ce,
            old(self).sound(),
        ensures
            final(self).progress() == lay_exon(old(self).progress(), (s, e), cs, ce, strand),
            final(self).sound(),
    {
        if e <= cs {
            self.put_below(s, e, strand);
        } else if s < cs {
            self.put_lower_bound(s, e, cs, strand);
        } else if e < ce {
            self.put_inside(s, e, strand);
        } else if e == ce {
            self.put_coding_end(s, e, strand);
        } else if s < ce {
            self.put_upper_bound(s, e, ce, strand);
        } else {
            self.put_above(s, e, strand);
        }
    }
}

/// Lays out the exons around the coding region `[cs, ce)`.
fn lay_out(exons: &Vec<(u64, u64)>, cs: u64, ce: u64, strand: Strand) -> (pieces: Vec<Piece>)
    requires
        exons_well_formed(exons@),
        cs < ce,
    ensures
        pieces@ == lay_exons(exons@, cs, ce, strand).pieces,
        pieces_ordered(pieces@),
{
    let mut cursor = Cursor { pieces: Vec::new(), lower_left: 3, upper_left: 3 };
    let mut i: usize = 0;
    while i < exons.len()
        invariant
            0 <= i <= exons.len(),
            exons_well_formed(exons@),
            cs < ce,
            cursor.sound(),
            cursor.progress() == lay_exons(exons@.take(i as int), cs, ce, strand),
        decreases exons.len() - i,
    {
        let (s, e) = exons[i];
        proof {
            assert(exons@.take(i + 1).drop_last() =~= exons@.take(i as int));
            assert(exons@.take(i + 1).last() == exons@[i as int]);
            assert(exons@[i as int].0 < exons@[i as int].1);
        }
        cursor.put_exon(s, e, cs, ce, strand);
        i += 1;
    }
    proof {
        assert(exons@.take(exons.len() as int) =~= exons@);
    }
    cursor.pieces
}

/// One exon piece per pair.
fn lay_out_exons(exons: &Vec<(u64, u64)>) -> (pieces: Vec<Piece>)
    ensures
        pieces@ == exons_only(exons@),
{
    let mut pieces: Vec<Piece> = Vec::new();
    let mut i: usize = 0;
    while i < exons.len()
        invariant
            0 <= i <= exons.len(),
            pieces@ == exons_only(exons@.take(i as int)),
        decreases exons.len() - i,
    {
        let (s, e) = exons[i];
        pieces.push(Piece { kind: TxFeature::Exon, start: s, end: e });
        proof {
            assert(pieces@ =~= exons_only(exons@.take(i + 1)));
        }
        i += 1;
    }
    proof {
        assert(exons@.take(exons.len() as int) =~= exons@);
    }
    pieces
}

/// Infers the layout of a transcript over `[start, end)` from its exons and
/// its coding region.
pub fn infer_layout(
    exons: &Vec<(u64, u64)>,
    coding: Option<(u64, u64)>,
    start: u64,
    end: u64,
    strand: Strand,
) -> (r: Result<Vec<Piece>, FeatureError>)
    ensures
        match r {
            Ok(pieces) => layout(exons@, coding, start, end, strand) == Ok::<
                Seq<Piece>,
                FeatureError,
            >(pieces@) && pieces_ordered(pieces@),
            Err(e) => layout(exons@, coding, start, end, strand) == Err::<
                Seq<Piece>,
                FeatureError,
            >(e),
        },
{
    if exons.len() == 0 {
        return Err(FeatureError::IncompleteTranscriptError);
    }
    let (lo, hi) = match exon_bounds(exons) {
        Some(bounds) => bounds,
        None => {
            return Err(FeatureError::SubFeatureIntervalError);
        },
    };
    if lo != start || hi != end {
        return Err(FeatureError::SubFeatureIntervalError);
    }
    match coding {
        Some((cs, ce)) => {
            if cs > ce {
                Err(FeatureError::SubFeatureIntervalError)
            } else if cs == ce {
                Ok(lay_out_exons(exons))
            } else if cs < start || ce > end {
                Err(FeatureError::SubFeatureIntervalError)
            } else {
                Ok(lay_out(exons, cs, ce, strand))
            }
        },
        None => Ok(lay_out_exons(exons)),
    }
}

} // verus!
