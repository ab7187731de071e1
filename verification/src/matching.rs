//! Generic three-phase (backtrack / input / lookahead) matching against a
//! glyph run.
//!
//! The buffer model splits the run at a cursor: `out` holds the glyphs the
//! shaping pass has already produced (the backtrack side, scanned
//! backwards) and `glyphs[idx..]` the current and not-yet-processed glyphs.
//! A failed match records an unsafe-boundary mark on the buffer; nested
//! lookup invocations are reported as data for the owning engine to replay.

use vstd::prelude::*;

use crate::classdef::{class_of, ClassDef};
use crate::coverage::{cov_covers, CoverageTable};

verus! {

/// Which boundary marker a failed or successful match records.
#[derive(Clone, Copy, Debug, PartialEq, Eq, Structural)]
pub enum UnsafeMarkKind {
    /// The scanned span must not be concatenated across.
    Concat,
    /// As `Concat`, for a span that starts in the output side.
    ConcatFromOutbuffer,
    /// The matched span must not be treated as a break point.
    BreakFromOutbuffer,
}

/// A boundary marker over the half-open span `start..end`.
#[derive(Clone, Copy, Debug, PartialEq, Eq, Structural)]
pub struct UnsafeMark {
    /// Marker kind.
    pub kind: UnsafeMarkKind,
    /// First position of the span.
    pub start: usize,
    /// One past the last position of the span.
    pub end: usize,
}

/// One nested-lookup record of a rule: which lookup to apply at which
/// logical input position.
#[derive(Clone, Copy, Debug, PartialEq, Eq, Structural)]
pub struct SequenceLookupRecord {
    /// Logical input position, 0 being the current glyph.
    pub sequence_index: u16,
    /// Index of the lookup to apply there.
    pub lookup_list_index: u16,
}

/// One nested lookup to replay after a successful match.
#[derive(Clone, Copy, Debug, PartialEq, Eq, Structural)]
pub struct LookupInvocation {
    /// Logical input position the rule named.
    pub sequence_index: u16,
    /// Buffer position that input position matched.
    pub buffer_index: usize,
    /// Lookup to recurse into.
    pub lookup_index: u16,
}

/// The glyph run as the matcher sees it.
pub struct MatchBuffer {
    /// Already-processed output glyphs; backtrack scans these backwards.
    pub out: Vec<u16>,
    /// The input glyphs; positions before `idx` are consumed.
    pub glyphs: Vec<u16>,
    /// Cursor: position of the current glyph in `glyphs`.
    pub idx: usize,
    /// Boundary markers recorded so far.
    pub marks: Vec<UnsafeMark>,
}

impl MatchBuffer {
    /// The current glyph.
    pub fn cur(&self) -> (g: u16)
        requires
            self.idx < self.glyphs@.len(),
        ensures
            g == self.glyphs@[self.idx as int],
    {
        self.glyphs[self.idx]
    }

    /// Marks `start..end` unsafe to concatenate across.
    pub fn unsafe_to_concat(&mut self, start: usize, end: usize)
        ensures
            final(self).marks@ == old(self).marks@.push(
                UnsafeMark { kind: UnsafeMarkKind::Concat, start, end },
            ),
            final(self).out@ == old(self).out@,
            final(self).glyphs@ == old(self).glyphs@,
            final(self).idx == old(self).idx,
    {
        self.marks.push(UnsafeMark { kind: UnsafeMarkKind::Concat, start, end });
    }

    /// Marks `start..end` unsafe to concatenate, starting in the output
    /// side.
    pub fn unsafe_to_concat_from_outbuffer(&mut self, start: usize, end: usize)
        ensures
            final(self).marks@ == old(self).marks@.push(
                UnsafeMark { kind: UnsafeMarkKind::ConcatFromOutbuffer, start, end },
            ),
            final(self).out@ == old(self).out@,
            final(self).glyphs@ == old(self).glyphs@,
            final(self).idx == old(self).idx,
    {
        self.marks.push(UnsafeMark { kind: UnsafeMarkKind::ConcatFromOutbuffer, start, end });
    }

    /// Marks the matched span `start..end` unsafe to break at.
    pub fn unsafe_to_break_from_outbuffer(&mut self, start: usize, end: usize)
        ensures
            final(self).marks@ == old(self).marks@.push(
                UnsafeMark { kind: UnsafeMarkKind::BreakFromOutbuffer, start, end },
            ),
            final(self).out@ == old(self).out@,
            final(self).glyphs@ == old(self).glyphs@,
            final(self).idx == old(self).idx,
    {
        self.marks.push(UnsafeMark { kind: UnsafeMarkKind::BreakFromOutbuffer, start, end });
    }
}

/// Model of a per-position matcher: the sequence of expected values of one
/// phase of one rule, with the test each position applies.
pub enum MatchValues {
    /// Positions match by raw glyph-id equality.
    GlyphValues(Seq<u16>),
    /// Positions match when the glyph's class under the map equals the
    /// expected class; without a map nothing matches.
    ClassValues(Option<ClassDef>, Seq<u16>),
    /// Positions match when a coverage table from the list (from `base`
    /// on) holds the glyph; a missing table matches nothing.
    CoverageValues(Seq<Option<CoverageTable>>, int),
}

/// Glyph-id equality at position `i`.
pub open spec fn glyph_values_match(vals: Seq<u16>, g: u16, i: int) -> bool {
    vals[i] == g
}

/// Class equality at position `i`.
pub open spec fn class_values_match(cd: Option<ClassDef>, vals: Seq<u16>, g: u16, i: int) -> bool {
    match cd {
        Some(c) => class_of(c@, g) == vals[i],
        None => false,
    }
}

/// Whether the coverage table at `i` holds `g`; a missing table holds
/// nothing.
pub open spec fn coverage_values_match(
    cs: Seq<Option<CoverageTable>>,
    i: int,
    g: u16,
) -> bool {
    match cs[i] {
        Some(c) => cov_covers(c@, g),
        None => false,
    }
}

/// Number of positions the matcher tests.
pub open spec fn mv_len(mv: MatchValues) -> int {
    match mv {
        MatchValues::GlyphValues(vals) => vals.len() as int,
        MatchValues::ClassValues(_, vals) => vals.len() as int,
        MatchValues::CoverageValues(cs, base) => cs.len() - base,
    }
}

/// Whether glyph `g` satisfies position `i` of the matcher.
pub open spec fn mv_matches(mv: MatchValues, g: u16, i: int) -> bool {
    match mv {
        MatchValues::GlyphValues(vals) => glyph_values_match(vals, g, i),
        MatchValues::ClassValues(cd, vals) => class_values_match(cd, vals, g, i),
        MatchValues::CoverageValues(cs, base) => coverage_values_match(cs, base + i, g),
    }
}

/// One phase of one rule, ready to test buffer positions.
pub enum SeqMatcher<'a> {
    /// Raw glyph-id values.
    Glyphs(&'a Vec<u16>),
    /// Class values under a class map.
    Classes(&'a Option<ClassDef>, &'a Vec<u16>),
    /// Coverage tables, used from `base` on.
    Coverages(&'a Vec<Option<CoverageTable>>, usize),
}

impl<'a> View for SeqMatcher<'a> {
    type V = MatchValues;

    open spec fn view(&self) -> MatchValues {
        match self {
            SeqMatcher::Glyphs(vals) => MatchValues::GlyphValues(vals@),
            SeqMatcher::Classes(cd, vals) => MatchValues::ClassValues(**cd, vals@),
            SeqMatcher::Coverages(cs, base) => MatchValues::CoverageValues(cs@, *base as int),
        }
    }
}

impl<'a> SeqMatcher<'a> {
    /// A coverage matcher must not skip more tables than the list holds.
    pub open spec fn wf(self) -> bool {
        match self {
            SeqMatcher::Coverages(cs, base) => base <= cs@.len(),
            _ => true,
        }
    }

    /// Number of positions this matcher tests.
    pub fn len(&self) -> (n: usize)
        requires
            self.wf(),
        ensures
            n as int == mv_len(self@),
    {
        match self {
            SeqMatcher::Glyphs(vals) => vals.len(),
            SeqMatcher::Classes(_, vals) => vals.len(),
            SeqMatcher::Coverages(cs, base) => cs.len() - *base,
        }
    }

    /// Whether glyph `g` satisfies position `i`.
    pub fn matches_at(&self, g: u16, i: usize) -> (r: bool)
        requires
            self.wf(),
            (i as int) < mv_len(self@),
        ensures
            r == mv_matches(self@, g, i as int),
    {
        match self {
            SeqMatcher::Glyphs(vals) => {
                let r = vals[i] == g;
                proof {
                    assert(r == glyph_values_match(vals@, g, i as int));
                }
                r
            },
            SeqMatcher::Classes(cd, vals) => {
                let r = match cd {
                    Some(c) => c.get(g) == vals[i],
                    None => false,
                };
                proof {
                    assert(r == class_values_match(**cd, vals@, g, i as int));
                }
                r
            },
            SeqMatcher::Coverages(cs, base) => {
                let total = cs.len();
                proof {
                    assert(mv_len(self@) == cs@.len() - *base);
                    assert(*base + i < total);
                }
                let r = match &cs[*base + i] {
                    Some(c) => c.covers(g),
                    None => false,
                };
                proof {
                    assert(r == coverage_values_match(cs@, *base + i as int, g));
                }
                r
            },
        }
    }
}

/// Whether position `j` of the matcher accepts the glyph at `base + j`.
pub open spec fn phase_matches_at(mv: MatchValues, glyphs: Seq<u16>, base: int, j: int) -> bool {
    mv_matches(mv, glyphs[base + j], j)
}

/// Whether position `j` of the matcher accepts the `j`-th glyph from the
/// end of the output side.
pub open spec fn back_matches_at(mv: MatchValues, out: Seq<u16>, j: int) -> bool {
    mv_matches(mv, out[out.len() - 1 - j], j)
}

/// Every position of the matcher accepts the glyph `base + j` it faces.
pub open spec fn run_matches_from(mv: MatchValues, glyphs: Seq<u16>, base: int) -> bool {
    forall|j: int| 0 <= j < mv_len(mv) ==> phase_matches_at(mv, glyphs, base, j)
}

/// Input phase: the `mv_len` positions after the cursor all match.
pub open spec fn input_phase_ok(glyphs: Seq<u16>, idx: int, im: MatchValues) -> bool {
    idx + mv_len(im) + 1 <= glyphs.len() && run_matches_from(im, glyphs, idx + 1)
}

/// Lookahead phase: `mv_len` positions from `start` on all match.
pub open spec fn lookahead_phase_ok(glyphs: Seq<u16>, start: int, lm: MatchValues) -> bool {
    start + mv_len(lm) <= glyphs.len() && run_matches_from(lm, glyphs, start)
}

/// Backtrack phase: `mv_len` positions from the end of the output side,
/// scanned backwards, all match.
pub open spec fn backtrack_phase_ok(out: Seq<u16>, bm: MatchValues) -> bool {
    mv_len(bm) <= out.len() && forall|j: int|
        0 <= j < mv_len(bm) ==> back_matches_at(bm, out, j)
}

/// Whether a whole chained rule matches at the cursor.
pub open spec fn chain_matches(
    out: Seq<u16>,
    glyphs: Seq<u16>,
    idx: int,
    bm: MatchValues,
    im: MatchValues,
    lm: MatchValues,
) -> bool {
    input_phase_ok(glyphs, idx, im) && lookahead_phase_ok(glyphs, idx + mv_len(im) + 1, lm)
        && backtrack_phase_ok(out, bm)
}

/// The boundary marker a failed match records, by the first phase that
/// failed.
pub open spec fn chain_fail_mark(
    out: Seq<u16>,
    glyphs: Seq<u16>,
    idx: int,
    bm: MatchValues,
    im: MatchValues,
    lm: MatchValues,
) -> UnsafeMark {
    if !input_phase_ok(glyphs, idx, im) {
        UnsafeMark { kind: UnsafeMarkKind::Concat, start: idx as usize, end: idx as usize }
    } else if !lookahead_phase_ok(glyphs, idx + mv_len(im) + 1, lm) {
        UnsafeMark {
            kind: UnsafeMarkKind::Concat,
            start: idx as usize,
            end: (idx + mv_len(im) + 1) as usize,
        }
    } else {
        UnsafeMark {
            kind: UnsafeMarkKind::ConcatFromOutbuffer,
            start: out.len() as usize,
            end: (idx + mv_len(im) + 1 + mv_len(lm)) as usize,
        }
    }
}

/// The boundary marker a successful match records.
pub open spec fn chain_success_mark(
    out: Seq<u16>,
    glyphs: Seq<u16>,
    idx: int,
    bm: MatchValues,
    im: MatchValues,
    lm: MatchValues,
) -> UnsafeMark {
    UnsafeMark {
        kind: UnsafeMarkKind::BreakFromOutbuffer,
        start: (out.len() - mv_len(bm)) as usize,
        end: (idx + mv_len(im) + 1 + mv_len(lm)) as usize,
    }
}

/// Nested-lookup invocations named by the first `k` records, keeping only
/// those whose input position exists (at most `il`), each mapped to its
/// matched buffer position.
pub open spec fn invocations_prefix(
    records: Seq<SequenceLookupRecord>,
    k: int,
    il: int,
    idx: int,
) -> Seq<LookupInvocation>
    decreases k,
{
    if k <= 0 {
        Seq::empty()
    } else {
        invocations_prefix(records, k - 1, il, idx) + if records[k - 1].sequence_index <= il {
            seq![
                LookupInvocation {
                    sequence_index: records[k - 1].sequence_index,
                    buffer_index: (idx + records[k - 1].sequence_index) as usize,
                    lookup_index: records[k - 1].lookup_list_index,
                },
            ]
        } else {
            Seq::empty()
        }
    }
}

/// All invocations of a rule with input length `il`, matched at cursor
/// `idx`.
pub open spec fn spec_invocations(
    records: Seq<SequenceLookupRecord>,
    il: int,
    idx: int,
) -> Seq<LookupInvocation> {
    invocations_prefix(records, records.len() as int, il, idx)
}

/// Matches the input phase: positions `idx+1 ..= idx+len` against the
/// matcher. Returns success, the end position one past the matched span,
/// and the matched buffer position of each logical input position.
#[verifier::loop_isolation(false)]
pub fn match_input(buf: &MatchBuffer, m: &SeqMatcher) -> (r: (bool, usize, Vec<usize>))
    requires
        m.wf(),
        buf.idx < buf.glyphs@.len(),
    ensures
        r.0 == input_phase_ok(buf.glyphs@, buf.idx as int, m@),
        r.0 ==> r.1 == buf.idx + mv_len(m@) + 1 && r.2@.len() == mv_len(m@) + 1 && forall|j: int|
            0 <= j <= mv_len(m@) ==> r.2@[j] == buf.idx + j,
        !r.0 ==> r.1 == buf.idx && r.2@.len() == 0,
{
    let count = m.len();
    let glen = buf.glyphs.len();
    let ghost ibase: int = buf.idx + 1;
    let mut positions: Vec<usize> = Vec::new();
    positions.push(buf.idx);
    let mut pos = buf.idx;
    let mut j: usize = 0;
    while j < count
        invariant
            j <= count,
            glen == buf.glyphs@.len(),
            pos == buf.idx + j,
            pos < glen,
            positions@.len() == j + 1,
            forall|p: int| 0 <= p <= j ==> positions@[p] == buf.idx + p,
            forall|p: int| 0 <= p < j ==> phase_matches_at(m@, buf.glyphs@, ibase, p),
        decreases count - j,
    {
        if pos + 1 >= glen {
            proof {
                assert(!input_phase_ok(buf.glyphs@, buf.idx as int, m@));
            }
            return (false, buf.idx, Vec::new());
        }
        if !m.matches_at(buf.glyphs[pos + 1], j) {
            proof {
                assert(!phase_matches_at(m@, buf.glyphs@, ibase, j as int));
                assert(!run_matches_from(m@, buf.glyphs@, ibase));
                assert(!input_phase_ok(buf.glyphs@, buf.idx as int, m@));
            }
            return (false, buf.idx, Vec::new());
        }
        proof {
            assert(phase_matches_at(m@, buf.glyphs@, ibase, j as int));
        }
        pos = pos + 1;
        positions.push(pos);
        j = j + 1;
    }
    proof {
        assert(run_matches_from(m@, buf.glyphs@, ibase));
        assert(input_phase_ok(buf.glyphs@, buf.idx as int, m@));
    }
    (true, pos + 1, positions)
}

/// Matches the lookahead phase: `len` positions from `start` on.
#[verifier::loop_isolation(false)]
pub fn match_lookahead(buf: &MatchBuffer, m: &SeqMatcher, start: usize) -> (r: (bool, usize))
    requires
        m.wf(),
        start <= buf.glyphs@.len(),
    ensures
        r.0 == lookahead_phase_ok(buf.glyphs@, start as int, m@),
        r.0 ==> r.1 == start + mv_len(m@),
        !r.0 ==> r.1 == start,
{
    let count = m.len();
    let glen = buf.glyphs.len();
    let mut j: usize = 0;
    while j < count
        invariant
            j <= count,
            glen == buf.glyphs@.len(),
            start + j <= glen,
            forall|p: int| 0 <= p < j ==> phase_matches_at(m@, buf.glyphs@, start as int, p),
        decreases count - j,
    {
        if glen - start <= j {
            proof {
                assert(!lookahead_phase_ok(buf.glyphs@, start as int, m@));
            }
            return (false, start);
        }
        if !m.matches_at(buf.glyphs[start + j], j) {
            proof {
                assert(!phase_matches_at(m@, buf.glyphs@, start as int, j as int));
                assert(!lookahead_phase_ok(buf.glyphs@, start as int, m@));
            }
            return (false, start);
        }
        proof {
            assert(phase_matches_at(m@, buf.glyphs@, start as int, j as int));
        }
        j = j + 1;
    }
    (true, start + count)
}

/// Matches the backtrack phase: `len` positions from the end of the
/// output side, scanned backwards.
#[verifier::loop_isolation(false)]
pub fn match_backtrack(buf: &MatchBuffer, m: &SeqMatcher) -> (r: (bool, usize))
    requires
        m.wf(),
    ensures
        r.0 == backtrack_phase_ok(buf.out@, m@),
        r.0 ==> r.1 == buf.out@.len() - mv_len(m@),
        !r.0 ==> r.1 == buf.out@.len(),
{
    let count = m.len();
    if count > buf.out.len() {
        proof {
            assert(!backtrack_phase_ok(buf.out@, m@));
        }
        return (false, buf.out.len());
    }
    let mut j: usize = 0;
    while j < count
        invariant
            j <= count,
            count <= buf.out@.len(),
            forall|p: int| 0 <= p < j ==> back_matches_at(m@, buf.out@, p),
        decreases count - j,
    {
        if !m.matches_at(buf.out[buf.out.len() - 1 - j], j) {
            proof {
                assert(!back_matches_at(m@, buf.out@, j as int));
                assert(!backtrack_phase_ok(buf.out@, m@));
            }
            return (false, buf.out.len());
        }
        proof {
            assert(back_matches_at(m@, buf.out@, j as int));
        }
        j = j + 1;
    }
    (true, buf.out.len() - count)
}

/// Tries one chained rule at the cursor: input, then lookahead, then
/// backtrack. On failure records the scanned span as unsafe and reports
/// no match; on success records the matched span and reports the rule's
/// nested-lookup invocations, mapped through the matched positions.
#[verifier::loop_isolation(false)]
pub fn apply_chain_context(
    buf: &mut MatchBuffer,
    backtrack: &SeqMatcher,
    input: &SeqMatcher,
    lookahead: &SeqMatcher,
    records: &Vec<SequenceLookupRecord>,
) -> (r: Option<Vec<LookupInvocation>>)
    requires
        backtrack.wf(),
        input.wf(),
        lookahead.wf(),
        old(buf).idx < old(buf).glyphs@.len(),
    ensures
        final(buf).out@ == old(buf).out@,
        final(buf).glyphs@ == old(buf).glyphs@,
        final(buf).idx == old(buf).idx,
        r.is_some() == chain_matches(
            old(buf).out@,
            old(buf).glyphs@,
            old(buf).idx as int,
            backtrack@,
            input@,
            lookahead@,
        ),
        r matches Some(v) ==> v@ == spec_invocations(
            records@,
            mv_len(input@),
            old(buf).idx as int,
        ) && final(buf).marks@ == old(buf).marks@.push(
            chain_success_mark(
                old(buf).out@,
                old(buf).glyphs@,
                old(buf).idx as int,
                backtrack@,
                input@,
                lookahead@,
            ),
        ),
        r is None ==> final(buf).marks@ == old(buf).marks@.push(
            chain_fail_mark(
                old(buf).out@,
                old(buf).glyphs@,
                old(buf).idx as int,
                backtrack@,
                input@,
                lookahead@,
            ),
        ),
{
    let (in_ok, match_end, positions) = match_input(buf, input);
    let mut end_index = buf.idx;
    let mut la_ok = false;
    if in_ok {
        end_index = match_end;
        let (ok2, end2) = match_lookahead(buf, lookahead, match_end);
        la_ok = ok2;
        end_index = end2;
    }
    if !(in_ok && la_ok) {
        let start = buf.idx;
        buf.unsafe_to_concat(start, end_index);
        return None;
    }
    let (bt_ok, start_index) = match_backtrack(buf, backtrack);
    if !bt_ok {
        buf.unsafe_to_concat_from_outbuffer(start_index, end_index);
        return None;
    }
    buf.unsafe_to_break_from_outbuffer(start_index, end_index);
    let il = input.len();
    let mut invs: Vec<LookupInvocation> = Vec::new();
    let mut k: usize = 0;
    while k < records.len()
        invariant
            k <= records@.len(),
            invs@ == invocations_prefix(records@, k as int, mv_len(input@), buf.idx as int),
        decreases records@.len() - k,
    {
        let rec = records[k];
        if (rec.sequence_index as usize) <= il {
            invs.push(
                LookupInvocation {
                    sequence_index: rec.sequence_index,
                    buffer_index: positions[rec.sequence_index as usize],
                    lookup_index: rec.lookup_list_index,
                },
            );
        }
        k = k + 1;
    }
    Some(invs)
}

} // verus!
