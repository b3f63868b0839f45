//! What an inferred layout covers: the coding exons by coding sequence, the
//! rest of the exons by untranslated pieces, and how many bases each codon
//! gets.

use vstd::prelude::*;
use crate::error::FeatureError;
use crate::kind::{lower_codon, upper_codon, TxFeature};
use crate::layout::{
    exons_only, exons_well_formed, lay_exon, lay_exons, layout, least, Piece, Progress,
};
use crate::strand::Strand;

verus! {

/// Some coding-sequence piece holds the position.
pub open spec fn coding_at(pieces: Seq<Piece>, pos: int) -> bool {
    exists|i: int|
        0 <= i < pieces.len() && (#[trigger] pieces[i]).kind == TxFeature::CDS && pieces[i].start
            <= pos < pieces[i].end
}

/// Some untranslated piece, of any of the three kinds, holds the position.
pub open spec fn untranslated_at(pieces: Seq<Piece>, pos: int) -> bool {
    exists|i: int|
        0 <= i < pieces.len() && (#[trigger] pieces[i]).kind.is_utr() && pieces[i].start <= pos
            < pieces[i].end
}

/// Some exon holds the position.
pub open spec fn exon_at(exons: Seq<(u64, u64)>, pos: int) -> bool {
    exists|i: int| 0 <= i < exons.len() && (#[trigger] exons[i]).0 <= pos < exons[i].1
}

/// The exon starts below the coding region and ends above it.
pub open spec fn straddles(exon: (u64, u64), cs: u64, ce: u64) -> bool {
    exon.0 < cs && ce < exon.1
}

/// No exon holds the whole coding region with room on both sides.
pub open spec fn none_straddles(exons: Seq<(u64, u64)>, cs: u64, ce: u64) -> bool {
    forall|i: int| 0 <= i < exons.len() ==> !straddles(#[trigger] exons[i], cs, ce)
}

/// The bases that the pieces of one kind hold together.
pub open spec fn bases_of(pieces: Seq<Piece>, kind: TxFeature) -> int
    decreases pieces.len(),
{
    if pieces.len() == 0 {
        0
    } else {
        bases_of(pieces.drop_last(), kind) + if pieces.last().kind == kind {
            pieces.last().end - pieces.last().start
        } else {
            0
        }
    }
}

broadcast proof fn lemma_coding_at_push(s: Seq<Piece>, p: Piece, pos: int)
    ensures
        #[trigger] coding_at(s.push(p), pos) <==> (coding_at(s, pos) || (p.kind == TxFeature::CDS
            && p.start <= pos < p.end)),
{
    let t = s.push(p);
    if coding_at(t, pos) {
        let i = choose|i: int|
            0 <= i < t.len() && (#[trigger] t[i]).kind == TxFeature::CDS && t[i].start <= pos
                < t[i].end;
        if i < s.len() {
            assert(s[i] == t[i]);
        }
    }
    if coding_at(s, pos) {
        let i = choose|i: int|
            0 <= i < s.len() && (#[trigger] s[i]).kind == TxFeature::CDS && s[i].start <= pos
                < s[i].end;
        assert(t[i] == s[i]);
    }
    if p.kind == TxFeature::CDS && p.start <= pos < p.end {
        assert(t[s.len() as int] == p);
    }
}

broadcast proof fn lemma_untranslated_at_push(s: Seq<Piece>, p: Piece, pos: int)
    ensures
        #[trigger] untranslated_at(s.push(p), pos) <==> (untranslated_at(s, pos) || (
        p.kind.is_utr() && p.start <= pos < p.end)),
{
    let t = s.push(p);
    if untranslated_at(t, pos) {
        let i = choose|i: int|
            0 <= i < t.len() && (#[trigger] t[i]).kind.is_utr() && t[i].start <= pos < t[i].end;
        if i < s.len() {
            assert(s[i] == t[i]);
        }
    }
    if untranslated_at(s, pos) {
        let i = choose|i: int|
            0 <= i < s.len() && (#[trigger] s[i]).kind.is_utr() && s[i].start <= pos < s[i].end;
        assert(t[i] == s[i]);
    }
    if p.kind.is_utr() && p.start <= pos < p.end {
        assert(t[s.len() as int] == p);
    }
}

broadcast proof fn lemma_bases_of_push(s: Seq<Piece>, p: Piece, kind: TxFeature)
    ensures
        #[trigger] bases_of(s.push(p), kind) == bases_of(s, kind) + if p.kind == kind {
            p.end - p.start
        } else {
            0
        },
{
    assert(s.push(p).drop_last() =~= s);
}

proof fn lemma_exon_at_last(exons: Seq<(u64, u64)>, pos: int)
    requires
        exons.len() > 0,
    ensures
        exon_at(exons, pos) <==> (exon_at(exons.drop_last(), pos) || exons.last().0 <= pos
            < exons.last().1),
{
    let init = exons.drop_last();
    if exon_at(exons, pos) {
        let i = choose|i: int| 0 <= i < exons.len() && (#[trigger] exons[i]).0 <= pos < exons[i].1;
        if i < init.len() {
            assert(init[i] == exons[i]);
        }
    }
    if exon_at(init, pos) {
        let i = choose|i: int| 0 <= i < init.len() && (#[trigger] init[i]).0 <= pos < init[i].1;
        assert(exons[i] == init[i]);
    }
    if exons.last().0 <= pos < exons.last().1 {
        assert(exons[exons.len() - 1] == exons.last());
    }
}

proof fn lemma_lay_exon_covers(
    st: Progress,
    exon: (u64, u64),
    cs: u64,
    ce: u64,
    strand: Strand,
    pos: int,
)
    requires
        exon.0 < exon.1,
        cs < ce,
        !straddles(exon, cs, ce),
    ensures
        coding_at(lay_exon(st, exon, cs, ce, strand).pieces, pos) <==> (coding_at(st.pieces, pos)
            || (exon.0 <= pos < exon.1 && cs <= pos < ce)),
        untranslated_at(lay_exon(st, exon, cs, ce, strand).pieces, pos) <==> (untranslated_at(
            st.pieces,
            pos,
        ) || (exon.0 <= pos < exon.1 && !(cs <= pos < ce))),
{
    broadcast use lemma_coding_at_push, lemma_untranslated_at_push;

}

proof fn lemma_lay_exons_cover(
    exons: Seq<(u64, u64)>,
    cs: u64,
    ce: u64,
    strand: Strand,
    pos: int,
)
    requires
        exons_well_formed(exons),
        cs < ce,
        none_straddles(exons, cs, ce),
    ensures
        coding_at(lay_exons(exons, cs, ce, strand).pieces, pos) <==> (exon_at(exons, pos) && cs
            <= pos < ce),
        untranslated_at(lay_exons(exons, cs, ce, strand).pieces, pos) <==> (exon_at(exons, pos)
            && !(cs <= pos < ce)),
    decreases exons.len(),
{
    if exons.len() > 0 {
        let init = exons.drop_last();
        assert forall|i: int| 0 <= i < init.len() implies (#[trigger] init[i]).0 < init[i].1
            && !straddles(init[i], cs, ce) by {
            assert(init[i] == exons[i]);
        }
        lemma_lay_exons_cover(init, cs, ce, strand, pos);
        assert(exons.last() == exons[exons.len() - 1]);
        lemma_lay_exon_covers(lay_exons(init, cs, ce, strand), exons.last(), cs, ce, strand, pos);
        lemma_exon_at_last(exons, pos);
    }
}

/// Some exon that does not hold the whole coding region with room on both
/// sides holds the position.
pub open spec fn plain_exon_at(exons: Seq<(u64, u64)>, cs: u64, ce: u64, pos: int) -> bool {
    exists|i: int|
        0 <= i < exons.len() && (#[trigger] exons[i]).0 <= pos < exons[i].1 && !straddles(
            exons[i],
            cs,
            ce,
        )
}

proof fn lemma_lay_exon_at_coding_end(
    st: Progress,
    exon: (u64, u64),
    cs: u64,
    ce: u64,
    strand: Strand,
)
    requires
        exon.0 < exon.1,
        cs < ce,
    ensures
        coding_at(st.pieces, ce as int) || straddles(exon, cs, ce) ==> coding_at(
            lay_exon(st, exon, cs, ce, strand).pieces,
            ce as int,
        ),
        untranslated_at(lay_exon(st, exon, cs, ce, strand).pieces, ce as int) <==> (
        untranslated_at(st.pieces, ce as int) || (exon.0 <= ce < exon.1 && !straddles(
            exon,
            cs,
            ce,
        ))),
{
    broadcast use lemma_coding_at_push, lemma_untranslated_at_push;

}

proof fn lemma_lay_exons_at_coding_end(exons: Seq<(u64, u64)>, cs: u64, ce: u64, strand: Strand)
    requires
        exons_well_formed(exons),
        cs < ce,
    ensures
        !none_straddles(exons, cs, ce) ==> coding_at(
            lay_exons(exons, cs, ce, strand).pieces,
            ce as int,
        ),
        untranslated_at(lay_exons(exons, cs, ce, strand).pieces, ce as int) <==> plain_exon_at(
            exons,
            cs,
            ce,
            ce as int,
        ),
    decreases exons.len(),
{
    if exons.len() > 0 {
        let init = exons.drop_last();
        let last = exons.last();
        assert(last == exons[exons.len() - 1]);
        assert forall|i: int| 0 <= i < init.len() implies (#[trigger] init[i]).0 < init[i].1 by {
            assert(init[i] == exons[i]);
        }
        lemma_lay_exons_at_coding_end(init, cs, ce, strand);
        lemma_lay_exon_at_coding_end(lay_exons(init, cs, ce, strand), last, cs, ce, strand);
        if !none_straddles(exons, cs, ce) {
            let k = choose|k: int| 0 <= k < exons.len() && straddles(#[trigger] exons[k], cs, ce);
            if k < init.len() {
                assert(init[k] == exons[k]);
            }
        }
        if plain_exon_at(exons, cs, ce, ce as int) {
            let k = choose|k: int|
                0 <= k < exons.len() && (#[trigger] exons[k]).0 <= ce < exons[k].1 && !straddles(
                    exons[k],
                    cs,
                    ce,
                );
            if k < init.len() {
                assert(init[k] == exons[k]);
            }
        }
        if plain_exon_at(init, cs, ce, ce as int) {
            let k = choose|k: int|
                0 <= k < init.len() && (#[trigger] init[k]).0 <= ce < init[k].1 && !straddles(
                    init[k],
                    cs,
                    ce,
                );
            assert(exons[k] == init[k]);
        }
    }
}

/// The piece is an exon, an untranslated piece or coding sequence.
pub open spec fn is_exon_part(p: Piece) -> bool {
    p.kind == TxFeature::Exon || p.kind.is_utr() || p.kind == TxFeature::CDS
}

/// Every exon, untranslated and coding piece of the sequence has a base and
/// lies between `lo` and `hi`.
pub open spec fn parts_within(pieces: Seq<Piece>, lo: u64, hi: u64) -> bool {
    forall|i: int|
        0 <= i < pieces.len() && is_exon_part(#[trigger] pieces[i]) ==> lo <= pieces[i].start
            < pieces[i].end <= hi
}

broadcast proof fn lemma_parts_within_push(s: Seq<Piece>, p: Piece, lo: u64, hi: u64)
    ensures
        #[trigger] parts_within(s.push(p), lo, hi) <==> (parts_within(s, lo, hi) && (is_exon_part(
            p,
        ) ==> lo <= p.start < p.end <= hi)),
{
    let t = s.push(p);
    if parts_within(t, lo, hi) {
        assert forall|i: int| 0 <= i < s.len() && is_exon_part(#[trigger] s[i]) implies lo
            <= s[i].start < s[i].end <= hi by {
            assert(t[i] == s[i]);
        }
        assert(t[s.len() as int] == p);
    }
    if parts_within(s, lo, hi) && (is_exon_part(p) ==> lo <= p.start < p.end <= hi) {
        assert forall|i: int| 0 <= i < t.len() && is_exon_part(#[trigger] t[i]) implies lo
            <= t[i].start < t[i].end <= hi by {
            if i < s.len() {
                assert(t[i] == s[i]);
            }
        }
    }
}

proof fn lemma_lay_exon_within(
    st: Progress,
    exon: (u64, u64),
    cs: u64,
    ce: u64,
    strand: Strand,
    lo: u64,
    hi: u64,
)
    requires
        lo <= exon.0 < exon.1 <= hi,
        cs < ce,
        parts_within(st.pieces, lo, hi),
    ensures
        parts_within(lay_exon(st, exon, cs, ce, strand).pieces, lo, hi),
{
    broadcast use lemma_parts_within_push;

}

proof fn lemma_lay_exons_within(
    exons: Seq<(u64, u64)>,
    cs: u64,
    ce: u64,
    strand: Strand,
    lo: u64,
    hi: u64,
)
    requires
        exons_well_formed(exons),
        forall|i: int| 0 <= i < exons.len() ==> lo <= (#[trigger] exons[i]).0 && exons[i].1 <= hi,
        cs < ce,
    ensures
        parts_within(lay_exons(exons, cs, ce, strand).pieces, lo, hi),
    decreases exons.len(),
{
    if exons.len() > 0 {
        let init = exons.drop_last();
        assert forall|i: int| 0 <= i < init.len() implies (#[trigger] init[i]).0 < init[i].1 && lo
            <= init[i].0 && init[i].1 <= hi by {
            assert(init[i] == exons[i]);
        }
        lemma_lay_exons_within(init, cs, ce, strand, lo, hi);
        assert(exons.last() == exons[exons.len() - 1]);
        lemma_lay_exon_within(lay_exons(init, cs, ce, strand), exons.last(), cs, ce, strand, lo, hi);
    }
}

/// The bounds of the exon pieces of a sequence, in order.
pub open spec fn exon_bounds(pieces: Seq<Piece>) -> Seq<(u64, u64)>
    decreases pieces.len(),
{
    if pieces.len() == 0 {
        Seq::empty()
    } else if pieces.last().kind == TxFeature::Exon {
        exon_bounds(pieces.drop_last()).push((pieces.last().start, pieces.last().end))
    } else {
        exon_bounds(pieces.drop_last())
    }
}

broadcast proof fn lemma_exon_bounds_push(s: Seq<Piece>, p: Piece)
    ensures
        #[trigger] exon_bounds(s.push(p)) == if p.kind == TxFeature::Exon {
            exon_bounds(s).push((p.start, p.end))
        } else {
            exon_bounds(s)
        },
{
    assert(s.push(p).drop_last() =~= s);
}

proof fn lemma_lay_exon_bounds(st: Progress, exon: (u64, u64), cs: u64, ce: u64, strand: Strand)
    ensures
        exon_bounds(lay_exon(st, exon, cs, ce, strand).pieces) == exon_bounds(st.pieces).push(
            exon,
        ),
{
    broadcast use lemma_exon_bounds_push;

}

proof fn lemma_lay_exons_bounds(exons: Seq<(u64, u64)>, cs: u64, ce: u64, strand: Strand)
    ensures
        exon_bounds(lay_exons(exons, cs, ce, strand).pieces) == exons,
    decreases exons.len(),
{
    if exons.len() > 0 {
        let init = exons.drop_last();
        lemma_lay_exons_bounds(init, cs, ce, strand);
        lemma_lay_exon_bounds(lay_exons(init, cs, ce, strand), exons.last(), cs, ce, strand);
        assert(init.push(exons.last()) =~= exons);
    } else {
        assert(exons =~= Seq::<(u64, u64)>::empty());
    }
}

proof fn lemma_exons_only_bounds(exons: Seq<(u64, u64)>)
    ensures
        exon_bounds(exons_only(exons)) == exons,
    decreases exons.len(),
{
    if exons.len() > 0 {
        let init = exons.drop_last();
        lemma_exons_only_bounds(init);
        assert(exons_only(exons).drop_last() =~= exons_only(init));
        assert(exons_only(exons).last() == Piece {
            kind: TxFeature::Exon,
            start: exons.last().0,
            end: exons.last().1,
        });
        assert(init.push(exons.last()) =~= exons);
    } else {
        assert(exons =~= Seq::<(u64, u64)>::empty());
    }
}

/// The bases of the exon `[s, e)` that are open to the lower codon: its part
/// of the coding region, if the exon ends below the coding end.
pub open spec fn lower_room(exon: (u64, u64), cs: u64, ce: u64) -> int {
    let (s, e) = exon;
    if e <= cs {
        0
    } else if s < cs {
        e - cs
    } else if e < ce {
        e - s
    } else {
        0
    }
}

/// The bases of all the exons that are open to the lower codon.
pub open spec fn lower_rooms(exons: Seq<(u64, u64)>, cs: u64, ce: u64) -> int
    decreases exons.len(),
{
    if exons.len() == 0 {
        0
    } else {
        lower_rooms(exons.drop_last(), cs, ce) + lower_room(exons.last(), cs, ce)
    }
}

/// Each exon ends at or below the start of every later one.
pub open spec fn exons_sorted(exons: Seq<(u64, u64)>) -> bool {
    forall|i: int, j: int|
        0 <= i < j < exons.len() ==> (#[trigger] exons[i]).1 <= (#[trigger] exons[j]).0
}

/// The exon starts inside the coding region and holds its last base.
pub open spec fn holds_coding_end(exon: (u64, u64), cs: u64, ce: u64) -> bool {
    cs <= exon.0 && exon.0 < ce && ce <= exon.1
}

/// The bases that the upper codon gets from exons in ascending order.
///
/// Only an exon that starts inside the coding region and holds its last base
/// gives any. With three or more coding bases it gives all three. With fewer,
/// it gives none if it ends with the coding region; otherwise it gives what it
/// has, and the exon before it gives the rest as far as its end coordinate
/// allows.
pub open spec fn upper_reach(exons: Seq<(u64, u64)>, cs: u64, ce: u64) -> int
    decreases exons.len(),
{
    if exons.len() == 0 {
        0
    } else if holds_coding_end(exons.last(), cs, ce) {
        let within = ce - exons.last().0;
        if within >= 3 {
            3
        } else if exons.last().1 == ce {
            0
        } else if exons.len() >= 2 {
            within + least(3 - within, exons[exons.len() - 2].1 as int)
        } else {
            within
        }
    } else {
        upper_reach(exons.drop_last(), cs, ce)
    }
}

proof fn lemma_upper_reach_range(exons: Seq<(u64, u64)>, cs: u64, ce: u64)
    ensures
        0 <= upper_reach(exons, cs, ce) <= 3,
    decreases exons.len(),
{
    if exons.len() > 0 && !holds_coding_end(exons.last(), cs, ce) {
        lemma_upper_reach_range(exons.drop_last(), cs, ce);
    }
}

spec fn counters_sound(st: Progress) -> bool {
    0 <= st.lower_left <= 3 && 0 <= st.upper_left <= 3
}

spec fn floor_zero(a: int) -> int {
    if a < 0 {
        0
    } else {
        a
    }
}

proof fn lemma_lay_exon_counts(st: Progress, exon: (u64, u64), cs: u64, ce: u64, strand: Strand)
    requires
        exon.0 < exon.1,
        cs < ce,
        counters_sound(st),
    ensures
        counters_sound(lay_exon(st, exon, cs, ce, strand)),
        lower_codon(strand) matches Some(k) ==> bases_of(
            lay_exon(st, exon, cs, ce, strand).pieces,
            k,
        ) + lay_exon(st, exon, cs, ce, strand).lower_left == bases_of(st.pieces, k)
            + st.lower_left,
        upper_codon(strand) matches Some(k) ==> bases_of(
            lay_exon(st, exon, cs, ce, strand).pieces,
            k,
        ) + lay_exon(st, exon, cs, ce, strand).upper_left == bases_of(st.pieces, k)
            + st.upper_left,
        strand == Strand::Unknown ==> bases_of(
            lay_exon(st, exon, cs, ce, strand).pieces,
            TxFeature::StartCodon,
        ) == bases_of(st.pieces, TxFeature::StartCodon) && bases_of(
            lay_exon(st, exon, cs, ce, strand).pieces,
            TxFeature::StopCodon,
        ) == bases_of(st.pieces, TxFeature::StopCodon),
        strand != Strand::Unknown ==> lay_exon(st, exon, cs, ce, strand).lower_left == floor_zero(
            st.lower_left - lower_room(exon, cs, ce),
        ),
{
    broadcast use lemma_bases_of_push;

}

proof fn lemma_lay_exons_counts(exons: Seq<(u64, u64)>, cs: u64, ce: u64, strand: Strand)
    requires
        exons_well_formed(exons),
        cs < ce,
    ensures
        counters_sound(lay_exons(exons, cs, ce, strand)),
        lower_codon(strand) matches Some(k) ==> bases_of(
            lay_exons(exons, cs, ce, strand).pieces,
            k,
        ) + lay_exons(exons, cs, ce, strand).lower_left == 3,
        upper_codon(strand) matches Some(k) ==> bases_of(
            lay_exons(exons, cs, ce, strand).pieces,
            k,
        ) + lay_exons(exons, cs, ce, strand).upper_left == 3,
        strand == Strand::Unknown ==> bases_of(
            lay_exons(exons, cs, ce, strand).pieces,
            TxFeature::StartCodon,
        ) == 0 && bases_of(lay_exons(exons, cs, ce, strand).pieces, TxFeature::StopCodon) == 0,
        strand != Strand::Unknown ==> lay_exons(exons, cs, ce, strand).lower_left == floor_zero(
            3 - lower_rooms(exons, cs, ce),
        ),
        lower_rooms(exons, cs, ce) >= 0,
    decreases exons.len(),
{
    if exons.len() > 0 {
        let init = exons.drop_last();
        assert forall|i: int| 0 <= i < init.len() implies (#[trigger] init[i]).0 < init[i].1 by {
            assert(init[i] == exons[i]);
        }
        lemma_lay_exons_counts(init, cs, ce, strand);
        assert(exons.last() == exons[exons.len() - 1]);
        lemma_lay_exon_counts(lay_exons(init, cs, ce, strand), exons.last(), cs, ce, strand);
    }
}

/// Exons that all end at or below a bound under the coding end leave the
/// upper codon untouched, and the piece laid out last ends with the last exon.
proof fn lemma_upper_untouched(
    exons: Seq<(u64, u64)>,
    cs: u64,
    ce: u64,
    strand: Strand,
    bound: u64,
)
    requires
        exons_well_formed(exons),
        cs < ce,
        bound < ce,
        forall|i: int| 0 <= i < exons.len() ==> (#[trigger] exons[i]).1 <= bound,
    ensures
        lay_exons(exons, cs, ce, strand).upper_left == 3,
        upper_reach(exons, cs, ce) == 0,
        exons.len() > 0 ==> lay_exons(exons, cs, ce, strand).pieces.len() > 0 && lay_exons(
            exons,
            cs,
            ce,
            strand,
        ).pieces.last().end == exons.last().1,
    decreases exons.len(),
{
    if exons.len() > 0 {
        let init = exons.drop_last();
        assert forall|i: int| 0 <= i < init.len() implies (#[trigger] init[i]).0 < init[i].1
            && init[i].1 <= bound by {
            assert(init[i] == exons[i]);
        }
        lemma_upper_untouched(init, cs, ce, strand, bound);
        assert(exons.last() == exons[exons.len() - 1]);
    }
}

proof fn lemma_upper_left(exons: Seq<(u64, u64)>, cs: u64, ce: u64, strand: Strand)
    requires
        exons_well_formed(exons),
        exons_sorted(exons),
        cs < ce,
        strand != Strand::Unknown,
    ensures
        lay_exons(exons, cs, ce, strand).upper_left == 3 - upper_reach(exons, cs, ce),
    decreases exons.len(),
{
    if exons.len() > 0 {
        let init = exons.drop_last();
        let last = exons.last();
        assert(last == exons[exons.len() - 1]);
        assert forall|i: int| 0 <= i < init.len() implies (#[trigger] init[i]).0 < init[i].1
            && init[i].1 <= last.0 by {
            assert(init[i] == exons[i]);
        }
        assert(exons_sorted(init)) by {
            assert forall|i: int, j: int| 0 <= i < j < init.len() implies (#[trigger] init[i]).1 <= (
            #[trigger] init[j]).0 by {
                assert(init[i] == exons[i]);
                assert(init[j] == exons[j]);
            }
        }
        if holds_coding_end(last, cs, ce) {
            lemma_upper_untouched(init, cs, ce, strand, last.0);
            if init.len() > 0 {
                assert(init.last() == exons[exons.len() - 2]);
            }
        } else {
            lemma_upper_left(init, cs, ce, strand);
        }
    }
}

/// Without a coding region, or with an empty one, a layout holds one exon
/// piece for each exon, in the order and with the bounds given, and nothing
/// else.
pub proof fn exon_pieces_only(
    exons: Seq<(u64, u64)>,
    coding: Option<(u64, u64)>,
    start: u64,
    end: u64,
    strand: Strand,
    pieces: Seq<Piece>,
)
    requires
        layout(exons, coding, start, end, strand) == Ok::<Seq<Piece>, FeatureError>(pieces),
        coding matches Some(c) ==> c.0 == c.1,
    ensures
        pieces.len() == exons.len(),
        forall|i: int|
            0 <= i < exons.len() ==> #[trigger] pieces[i] == (Piece {
                kind: TxFeature::Exon,
                start: exons[i].0,
                end: exons[i].1,
            }),
{
    assert(pieces == exons_only(exons));
}

/// With a coding region `[cs, ce)` that no exon holds with room on both
/// sides, the coding-sequence pieces of a layout cover exactly the exon
/// positions inside `[cs, ce)`.
pub proof fn coding_pieces_cover_coding_exons(
    exons: Seq<(u64, u64)>,
    cs: u64,
    ce: u64,
    start: u64,
    end: u64,
    strand: Strand,
    pieces: Seq<Piece>,
)
    requires
        layout(exons, Some((cs, ce)), start, end, strand) == Ok::<Seq<Piece>, FeatureError>(
            pieces,
        ),
        cs < ce,
        none_straddles(exons, cs, ce),
    ensures
        forall|pos: int| #[trigger] coding_at(pieces, pos) <==> (exon_at(exons, pos) && cs <= pos < ce),
{
    assert forall|pos: int| #[trigger] coding_at(pieces, pos) <==> (exon_at(exons, pos) && cs <= pos < ce) by {
        lemma_lay_exons_cover(exons, cs, ce, strand, pos);
    }
}

/// With a coding region `[cs, ce)` that no exon holds with room on both
/// sides, the untranslated pieces of a layout cover exactly the exon
/// positions outside `[cs, ce)`.
pub proof fn untranslated_pieces_cover_the_rest(
    exons: Seq<(u64, u64)>,
    cs: u64,
    ce: u64,
    start: u64,
    end: u64,
    strand: Strand,
    pieces: Seq<Piece>,
)
    requires
        layout(exons, Some((cs, ce)), start, end, strand) == Ok::<Seq<Piece>, FeatureError>(
            pieces,
        ),
        cs < ce,
        none_straddles(exons, cs, ce),
    ensures
        forall|pos: int|
            #[trigger] untranslated_at(pieces, pos) <==> (exon_at(exons, pos) && !(cs <= pos < ce)),
{
    assert forall|pos: int|
        #[trigger] untranslated_at(pieces, pos) <==> (exon_at(exons, pos) && !(cs <= pos < ce)) by {
        lemma_lay_exons_cover(exons, cs, ce, strand, pos);
    }
}

/// How many bases the codons of a layout hold, for a transcript of known
/// strand with a coding region `[cs, ce)`.
///
/// The codon at the lower bound holds three bases, or all the bases open to
/// it if those are fewer. With exons in ascending order the codon at the
/// upper bound holds `upper_reach` bases. So each codon holds exactly three
/// bases where `lower_rooms` is at least three and `upper_reach` is three.
pub proof fn codon_bases(
    exons: Seq<(u64, u64)>,
    cs: u64,
    ce: u64,
    start: u64,
    end: u64,
    strand: Strand,
    pieces: Seq<Piece>,
)
    requires
        layout(exons, Some((cs, ce)), start, end, strand) == Ok::<Seq<Piece>, FeatureError>(
            pieces,
        ),
        cs < ce,
        strand != Strand::Unknown,
    ensures
        bases_of(pieces, lower_codon(strand)->0) == least(3, lower_rooms(exons, cs, ce)),
        exons_sorted(exons) ==> bases_of(pieces, upper_codon(strand)->0) == upper_reach(
            exons,
            cs,
            ce,
        ),
        0 <= upper_reach(exons, cs, ce) <= 3,
{
    lemma_upper_reach_range(exons, cs, ce);
    lemma_lay_exons_counts(exons, cs, ce, strand);
    if exons_sorted(exons) {
        lemma_upper_left(exons, cs, ce, strand);
    }
}

/// With a coding region `[cs, ce)`, a known strand and exons in ascending
/// order, the start codon and the stop codon of a layout hold exactly three
/// bases each, provided that three bases or more are open to the lower codon
/// and that the upper codon reaches three bases.
pub proof fn codons_are_whole(
    exons: Seq<(u64, u64)>,
    cs: u64,
    ce: u64,
    start: u64,
    end: u64,
    strand: Strand,
    pieces: Seq<Piece>,
)
    requires
        layout(exons, Some((cs, ce)), start, end, strand) == Ok::<Seq<Piece>, FeatureError>(
            pieces,
        ),
        cs < ce,
        strand != Strand::Unknown,
        exons_sorted(exons),
        lower_rooms(exons, cs, ce) >= 3,
        upper_reach(exons, cs, ce) == 3,
    ensures
        bases_of(pieces, TxFeature::StartCodon) == 3,
        bases_of(pieces, TxFeature::StopCodon) == 3,
{
    codon_bases(exons, cs, ce, start, end, strand, pieces);
}

/// Where the strand is unknown a layout holds no codon bases.
pub proof fn no_codons_without_strand(
    exons: Seq<(u64, u64)>,
    cs: u64,
    ce: u64,
    start: u64,
    end: u64,
    pieces: Seq<Piece>,
)
    requires
        layout(exons, Some((cs, ce)), start, end, Strand::Unknown) == Ok::<
            Seq<Piece>,
            FeatureError,
        >(pieces),
        cs < ce,
    ensures
        bases_of(pieces, TxFeature::StartCodon) == 0,
        bases_of(pieces, TxFeature::StopCodon) == 0,
{
    lemma_lay_exons_counts(exons, cs, ce, Strand::Unknown);
}

/// With or without a coding region, the exon pieces of a layout are the
/// exons: one piece for each, in the order and with the bounds given.
pub proof fn exon_pieces_are_the_exons(
    exons: Seq<(u64, u64)>,
    coding: Option<(u64, u64)>,
    start: u64,
    end: u64,
    strand: Strand,
    pieces: Seq<Piece>,
)
    requires
        layout(exons, coding, start, end, strand) == Ok::<Seq<Piece>, FeatureError>(pieces),
    ensures
        exon_bounds(pieces) == exons,
{
    lemma_exons_only_bounds(exons);
    if let Some((cs, ce)) = coding {
        lemma_lay_exons_bounds(exons, cs, ce, strand);
    }
}

/// Where an exon holds the whole coding region `[cs, ce)` with room on both
/// sides, the coverage by coding sequence and by untranslated pieces does not
/// hold: the coding sequence of that exon runs on to the exon's end, so the
/// position `ce` is coding, and with exons in ascending order no untranslated
/// piece holds it, though an exon does.
pub proof fn straddling_exon_is_coding_to_its_end(
    exons: Seq<(u64, u64)>,
    cs: u64,
    ce: u64,
    start: u64,
    end: u64,
    strand: Strand,
    pieces: Seq<Piece>,
)
    requires
        layout(exons, Some((cs, ce)), start, end, strand) == Ok::<Seq<Piece>, FeatureError>(
            pieces,
        ),
        cs < ce,
        !none_straddles(exons, cs, ce),
    ensures
        coding_at(pieces, ce as int),
        exon_at(exons, ce as int),
        exons_sorted(exons) ==> !untranslated_at(pieces, ce as int),
{
    lemma_lay_exons_at_coding_end(exons, cs, ce, strand);
    let k = choose|k: int| 0 <= k < exons.len() && straddles(#[trigger] exons[k], cs, ce);
    assert(exons[k].0 <= ce < exons[k].1);
    if exons_sorted(exons) && plain_exon_at(exons, cs, ce, ce as int) {
        let j = choose|j: int|
            0 <= j < exons.len() && (#[trigger] exons[j]).0 <= ce < exons[j].1 && !straddles(
                exons[j],
                cs,
                ce,
            );
        assert(exons[j].0 < exons[j].1);
        if j < k {
            assert(exons[j].1 <= exons[k].0);
        } else if k < j {
            assert(exons[k].1 <= exons[j].0);
        }
    }
}

/// Every exon, untranslated and coding piece of a layout has a base and lies
/// within the transcript.
pub proof fn parts_lie_within_the_transcript(
    exons: Seq<(u64, u64)>,
    coding: Option<(u64, u64)>,
    start: u64,
    end: u64,
    strand: Strand,
    pieces: Seq<Piece>,
)
    requires
        layout(exons, coding, start, end, strand) == Ok::<Seq<Piece>, FeatureError>(pieces),
    ensures
        parts_within(pieces, start, end),
{
    if let Some((cs, ce)) = coding {
        if cs < ce {
            lemma_lay_exons_within(exons, cs, ce, strand, start, end);
        }
    }
}

} // verus!
