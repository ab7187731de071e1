//! Chained sequence-context subtables: the three rule encodings, their
//! decoders, and rule application against a glyph run.

use vstd::prelude::*;

use crate::classdef::{class_of, parse_class_def, spec_parse_class_def, ClassDef, ClassDefView};
use crate::coverage::{parse_coverage, spec_parse_coverage, CoverageTable, CoverageView};
use crate::coverage::cov_get;
use crate::matching::{
    apply_chain_context, chain_fail_mark, chain_matches, chain_success_mark,
    coverage_values_match, spec_invocations, LookupInvocation, MatchBuffer, MatchValues,
    SeqMatcher, SequenceLookupRecord, UnsafeMark,
};
use crate::raw::{read_u16, u16_at, ReadError};

verus! {

/// View of an optional coverage table.
pub open spec fn opt_cov_view(o: Option<CoverageTable>) -> Option<CoverageView> {
    match o {
        Some(c) => Some(c@),
        None => None,
    }
}

/// View of an optional class definition.
pub open spec fn opt_cd_view(o: Option<ClassDef>) -> Option<ClassDefView> {
    match o {
        Some(c) => Some(c@),
        None => None,
    }
}

/// Decodes the coverage table `rel` bytes past `base`; `None` where the
/// bytes do not form one.
pub fn parse_coverage_at(data: &[u8], base: usize, rel: u16) -> (r: Option<CoverageTable>)
    requires
        base <= data@.len(),
    ensures
        opt_cov_view(r) == spec_parse_coverage(data@, base + rel),
{
    let dlen = data.len();
    if (rel as usize) > usize::MAX - base {
        return None;
    }
    let off = base + rel as usize;
    match parse_coverage(data, off) {
        Ok(c) => Some(c),
        Err(_) => None,
    }
}

/// Decodes the class definition `rel` bytes past `base`; `None` where the
/// bytes do not form one.
pub fn parse_class_def_at(data: &[u8], base: usize, rel: u16) -> (r: Option<ClassDef>)
    requires
        base <= data@.len(),
    ensures
        opt_cd_view(r) == spec_parse_class_def(data@, base + rel),
{
    let dlen = data.len();
    if (rel as usize) > usize::MAX - base {
        return None;
    }
    let off = base + rel as usize;
    match parse_class_def(data, off) {
        Ok(c) => Some(c),
        Err(_) => None,
    }
}

/// One candidate chained rule: the three value sequences (raw glyph ids
/// for format 1, class ids for format 2) and the nested lookups to replay
/// on a full match.
#[derive(Clone, Debug, PartialEq, Eq)]
pub struct ChainedRule {
    /// Expected values before the match, nearest first.
    pub backtrack: Vec<u16>,
    /// Expected values after the current glyph.
    pub input: Vec<u16>,
    /// Expected values after the input run.
    pub lookahead: Vec<u16>,
    /// Nested lookups, in declaration order.
    pub records: Vec<SequenceLookupRecord>,
}

/// Chained sequence context, format 1: rules over raw glyph ids.
#[derive(Clone, Debug, PartialEq, Eq)]
pub struct ChainedContextFormat1 {
    /// Byte offset of the primary coverage from the subtable start.
    pub coverage_offset: u16,
    /// Primary coverage; `None` where its bytes are malformed.
    pub coverage: Option<CoverageTable>,
    /// Rule sets by coverage index; `None` for a null or malformed set.
    pub rule_sets: Vec<Option<Vec<ChainedRule>>>,
}

/// Chained sequence context, format 2: rules over glyph classes.
#[derive(Clone, Debug, PartialEq, Eq)]
pub struct ChainedContextFormat2 {
    /// Byte offset of the primary coverage from the subtable start.
    pub coverage_offset: u16,
    /// Primary coverage; `None` where its bytes are malformed.
    pub coverage: Option<CoverageTable>,
    /// Class map for backtrack positions.
    pub backtrack_classes: Option<ClassDef>,
    /// Class map for input positions; also selects the rule set.
    pub input_classes: Option<ClassDef>,
    /// Class map for lookahead positions.
    pub lookahead_classes: Option<ClassDef>,
    /// Rule sets by input class of the current glyph.
    pub rule_sets: Vec<Option<Vec<ChainedRule>>>,
}

/// Chained sequence context, format 3: one rule given directly as
/// coverage-table sequences.
#[derive(Clone, Debug, PartialEq, Eq)]
pub struct ChainedContextFormat3 {
    /// Byte offset of the first input coverage from the subtable start; 0
    /// where there is none.
    pub first_input_coverage_offset: u16,
    /// Backtrack coverage tables, nearest position first.
    pub backtrack_coverages: Vec<Option<CoverageTable>>,
    /// Input coverage tables; the first gates the current glyph.
    pub input_coverages: Vec<Option<CoverageTable>>,
    /// Lookahead coverage tables.
    pub lookahead_coverages: Vec<Option<CoverageTable>>,
    /// Nested lookups, in declaration order.
    pub records: Vec<SequenceLookupRecord>,
}

/// Whether the bytes at `off` hold a well-formed format-1 header: the
/// fixed fields and the rule-set offset array.
pub open spec fn chained_f1_ok(d: Seq<u8>, off: int) -> bool {
    off >= 0 && off + 6 <= d.len() && u16_at(d, off) == 1 && off + 6 + 2 * (u16_at(d, off + 4)
        as int) <= d.len()
}

/// Whether the bytes at `off` hold a well-formed format-2 header.
pub open spec fn chained_f2_ok(d: Seq<u8>, off: int) -> bool {
    off >= 0 && off + 12 <= d.len() && u16_at(d, off) == 2 && off + 12 + 2 * (u16_at(d, off + 10)
        as int) <= d.len()
}

/// Backtrack coverage count of a format-3 subtable.
pub open spec fn f3_bt_count(d: Seq<u8>, off: int) -> int {
    u16_at(d, off + 2) as int
}

/// Position of the input coverage count.
pub open spec fn f3_in_pos(d: Seq<u8>, off: int) -> int {
    off + 4 + 2 * f3_bt_count(d, off)
}

/// Input coverage count of a format-3 subtable.
pub open spec fn f3_in_count(d: Seq<u8>, off: int) -> int {
    u16_at(d, f3_in_pos(d, off)) as int
}

/// Position of the lookahead coverage count.
pub open spec fn f3_la_pos(d: Seq<u8>, off: int) -> int {
    f3_in_pos(d, off) + 2 + 2 * f3_in_count(d, off)
}

/// Lookahead coverage count of a format-3 subtable.
pub open spec fn f3_la_count(d: Seq<u8>, off: int) -> int {
    u16_at(d, f3_la_pos(d, off)) as int
}

/// Position of the nested-lookup record count.
pub open spec fn f3_rec_pos(d: Seq<u8>, off: int) -> int {
    f3_la_pos(d, off) + 2 + 2 * f3_la_count(d, off)
}

/// Nested-lookup record count of a format-3 subtable.
pub open spec fn f3_rec_count(d: Seq<u8>, off: int) -> int {
    u16_at(d, f3_rec_pos(d, off)) as int
}

/// Whether the bytes at `off` hold a well-formed format-3 subtable: every
/// count's array lies within the data.
pub open spec fn chained_f3_ok(d: Seq<u8>, off: int) -> bool {
    off >= 0 && off + 4 <= d.len() && u16_at(d, off) == 3 && f3_in_pos(d, off) + 2 <= d.len()
        && f3_la_pos(d, off) + 2 <= d.len() && f3_rec_pos(d, off) + 2 <= d.len() && f3_rec_pos(
        d,
        off,
    ) + 2 + 4 * f3_rec_count(d, off) <= d.len()
}

/// Backtrack value count of a chained rule at `off`.
pub open spec fn rule_bt_count(d: Seq<u8>, off: int) -> int {
    u16_at(d, off) as int
}

/// Position of the rule's input count.
pub open spec fn rule_in_pos(d: Seq<u8>, off: int) -> int {
    off + 2 + 2 * rule_bt_count(d, off)
}

/// Declared input count of the rule; it includes the current glyph, so
/// the value array holds one fewer entry.
pub open spec fn rule_in_count(d: Seq<u8>, off: int) -> int {
    u16_at(d, rule_in_pos(d, off)) as int
}

/// Position of the rule's lookahead count.
pub open spec fn rule_la_pos(d: Seq<u8>, off: int) -> int {
    rule_in_pos(d, off) + 2 + 2 * (rule_in_count(d, off) - 1)
}

/// Lookahead value count of the rule.
pub open spec fn rule_la_count(d: Seq<u8>, off: int) -> int {
    u16_at(d, rule_la_pos(d, off)) as int
}

/// Position of the rule's nested-lookup record count.
pub open spec fn rule_rec_pos(d: Seq<u8>, off: int) -> int {
    rule_la_pos(d, off) + 2 + 2 * rule_la_count(d, off)
}

/// Nested-lookup record count of the rule.
pub open spec fn rule_rec_count(d: Seq<u8>, off: int) -> int {
    u16_at(d, rule_rec_pos(d, off)) as int
}

/// Whether the bytes at `off` hold a well-formed chained rule: every
/// count's array lies within the data and the input count is at least
/// one.
pub open spec fn chained_rule_ok(d: Seq<u8>, off: int) -> bool {
    off >= 0 && off + 2 <= d.len() && rule_in_pos(d, off) + 2 <= d.len() && rule_in_count(d, off)
        >= 1 && rule_la_pos(d, off) + 2 <= d.len() && rule_rec_pos(d, off) + 2 <= d.len()
        && rule_rec_pos(d, off) + 2 + 4 * rule_rec_count(d, off) <= d.len()
}

/// The rule holds exactly the values the bytes at `off` encode.
pub open spec fn rule_decodes(d: Seq<u8>, off: int, rule: ChainedRule) -> bool {
    &&& rule.backtrack@.len() == rule_bt_count(d, off)
    &&& forall|i: int|
        0 <= i < rule_bt_count(d, off) ==> #[trigger] rule.backtrack@[i] == u16_at(
            d,
            off + 2 + 2 * i,
        )
    &&& rule.input@.len() == rule_in_count(d, off) - 1
    &&& forall|i: int|
        0 <= i < rule_in_count(d, off) - 1 ==> #[trigger] rule.input@[i] == u16_at(
            d,
            rule_in_pos(d, off) + 2 + 2 * i,
        )
    &&& rule.lookahead@.len() == rule_la_count(d, off)
    &&& forall|i: int|
        0 <= i < rule_la_count(d, off) ==> #[trigger] rule.lookahead@[i] == u16_at(
            d,
            rule_la_pos(d, off) + 2 + 2 * i,
        )
    &&& rule.records@.len() == rule_rec_count(d, off)
    &&& forall|i: int|
        0 <= i < rule_rec_count(d, off) ==> #[trigger] rule.records@[i] == (SequenceLookupRecord {
            sequence_index: u16_at(d, rule_rec_pos(d, off) + 2 + 4 * i),
            lookup_list_index: u16_at(d, rule_rec_pos(d, off) + 2 + 4 * i + 2),
        })
}

/// Whether the bytes at `off` hold a well-formed rule-set header.
pub open spec fn rule_set_ok(d: Seq<u8>, off: int) -> bool {
    off >= 0 && off + 2 <= d.len() && off + 2 + 2 * (u16_at(d, off) as int) <= d.len()
}

/// `rules` is exactly the well-formed rules among the set's first `k`
/// declared offsets, decoded in declaration order; malformed rules are
/// dropped.
pub open spec fn rules_decode_prefix(
    d: Seq<u8>,
    set_off: int,
    k: int,
    rules: Seq<ChainedRule>,
) -> bool
    decreases k,
{
    if k <= 0 {
        rules.len() == 0
    } else {
        let roff = set_off + u16_at(d, set_off + 2 + 2 * (k - 1));
        if chained_rule_ok(d, roff) {
            rules.len() >= 1 && rules_decode_prefix(d, set_off, k - 1, rules.drop_last())
                && rule_decodes(d, roff, rules.last())
        } else {
            rules_decode_prefix(d, set_off, k - 1, rules)
        }
    }
}

/// How one rule-set slot relates to its declared offset: a null offset
/// or a malformed set header yields no set; otherwise the slot holds the
/// set's well-formed rules in declaration order.
pub open spec fn rule_set_slot_decodes(
    d: Seq<u8>,
    sub_off: int,
    rel: u16,
    slot: Option<Vec<ChainedRule>>,
) -> bool {
    if rel == 0 {
        slot is None
    } else {
        match slot {
            Some(v) => rule_set_ok(d, sub_off + rel) && rules_decode_prefix(
                d,
                sub_off + rel,
                u16_at(d, sub_off + rel) as int,
                v@,
            ),
            None => !rule_set_ok(d, sub_off + rel),
        }
    }
}

/// Decodes a count-prefixed array of 16-bit values at `pos`; also returns
/// the position one past the array.
#[verifier::loop_isolation(false)]
fn read_count_prefixed(data: &[u8], pos: usize) -> (r: Option<(Vec<u16>, usize)>)
    ensures
        r.is_some() == (pos + 2 <= data@.len() && pos + 2 + 2 * (u16_at(data@, pos as int) as int)
            <= data@.len()),
        r matches Some((v, end)) ==> v@.len() == u16_at(data@, pos as int) as int && end == pos + 2
            + 2 * v@.len() && end <= data@.len() && forall|i: int|
            0 <= i < v@.len() ==> #[trigger] v@[i] == u16_at(data@, pos + 2 + 2 * i),
{
    let dlen = data.len();
    if pos > dlen || dlen - pos < 2 {
        return None;
    }
    let n = read_u16(data, pos) as usize;
    if n > (dlen - pos - 2) / 2 {
        return None;
    }
    let mut v: Vec<u16> = Vec::new();
    let mut i: usize = 0;
    while i < n
        invariant
            i <= n,
            v@.len() == i as int,
            forall|j: int| 0 <= j < i ==> #[trigger] v@[j] == u16_at(data@, pos + 2 + 2 * j),
        decreases n - i,
    {
        v.push(read_u16(data, pos + 2 + 2 * i));
        i += 1;
    }
    Some((v, pos + 2 + 2 * n))
}

/// Decodes `count` nested-lookup records at `base`.
#[verifier::loop_isolation(false)]
pub fn parse_records(data: &[u8], base: usize, count: usize) -> (r: Vec<SequenceLookupRecord>)
    requires
        base + 4 * count <= data@.len(),
    ensures
        r@.len() == count as int,
        forall|i: int|
            0 <= i < count ==> #[trigger] r@[i] == (SequenceLookupRecord {
                sequence_index: u16_at(data@, base + 4 * i),
                lookup_list_index: u16_at(data@, base + 4 * i + 2),
            }),
{
    let dlen = data.len();
    let mut v: Vec<SequenceLookupRecord> = Vec::new();
    let mut i: usize = 0;
    while i < count
        invariant
            i <= count,
            v@.len() == i as int,
            forall|j: int|
                0 <= j < i ==> #[trigger] v@[j] == (SequenceLookupRecord {
                    sequence_index: u16_at(data@, base + 4 * j),
                    lookup_list_index: u16_at(data@, base + 4 * j + 2),
                }),
        decreases count - i,
    {
        v.push(
            SequenceLookupRecord {
                sequence_index: read_u16(data, base + 4 * i),
                lookup_list_index: read_u16(data, base + 4 * i + 2),
            },
        );
        i += 1;
    }
    v
}

/// Decodes one chained rule at `offset`: backtrack values, input values
/// (one fewer than the declared input count, which includes the current
/// glyph), lookahead values and nested-lookup records. `None` where any
/// part lies outside the data or the input count is zero.
#[verifier::loop_isolation(false)]
fn parse_chained_rule(data: &[u8], offset: usize) -> (r: Option<ChainedRule>)
    ensures
        r.is_some() == chained_rule_ok(data@, offset as int),
        r matches Some(rule) ==> rule_decodes(data@, offset as int, rule),
{
    let dlen = data.len();
    let (backtrack, pos) = match read_count_prefixed(data, offset) {
        Some(x) => x,
        None => {
            return None;
        },
    };
    // The input count includes the current glyph; its array holds one
    // value fewer.
    if pos > dlen || dlen - pos < 2 {
        return None;
    }
    let ic = read_u16(data, pos) as usize;
    if ic == 0 {
        return None;
    }
    let n = ic - 1;
    if n > (dlen - pos - 2) / 2 {
        return None;
    }
    let mut input: Vec<u16> = Vec::new();
    let mut i: usize = 0;
    while i < n
        invariant
            i <= n,
            n <= 0xFFFF,
            pos + 2 + 2 * n <= dlen,
            dlen == data@.len(),
            input@.len() == i as int,
            forall|j: int| 0 <= j < i ==> #[trigger] input@[j] == u16_at(data@, pos + 2 + 2 * j),
        decreases n - i,
    {
        input.push(read_u16(data, pos + 2 + 2 * i));
        i += 1;
    }
    let pos = pos + 2 + 2 * n;
    let (lookahead, pos) = match read_count_prefixed(data, pos) {
        Some(x) => x,
        None => {
            return None;
        },
    };
    if pos > dlen || dlen - pos < 2 {
        return None;
    }
    let sc = read_u16(data, pos) as usize;
    if sc > (dlen - pos - 2) / 4 {
        return None;
    }
    let records = parse_records(data, pos + 2, sc);
    Some(ChainedRule { backtrack, input, lookahead, records })
}

/// Decodes the rule set `rel` bytes past `base`: its rules in declaration
/// order, dropping each rule whose bytes are malformed. `None` where the
/// set header itself lies outside the data.
#[verifier::loop_isolation(false)]
fn parse_rule_set(data: &[u8], base: usize, rel: u16) -> (r: Option<Vec<ChainedRule>>)
    requires
        base <= data@.len(),
    ensures
        r.is_some() == rule_set_ok(data@, base + rel),
        r matches Some(rules) ==> rules_decode_prefix(
            data@,
            base + rel,
            u16_at(data@, base + rel) as int,
            rules@,
        ),
{
    let dlen = data.len();
    if (rel as usize) > usize::MAX - base {
        return None;
    }
    let off = base + rel as usize;
    if off > dlen || dlen - off < 2 {
        return None;
    }
    let m = read_u16(data, off) as usize;
    if m > (dlen - off - 2) / 2 {
        return None;
    }
    let mut rules: Vec<ChainedRule> = Vec::new();
    let mut i: usize = 0;
    while i < m
        invariant
            i <= m,
            m <= 0xFFFF,
            m == u16_at(data@, off as int),
            off == base + rel,
            off + 2 + 2 * m <= dlen,
            dlen == data@.len(),
            rules_decode_prefix(data@, off as int, i as int, rules@),
        decreases m - i,
    {
        let rule_rel = read_u16(data, off + 2 + 2 * i) as usize;
        let ghost rules_before = rules@;
        if rule_rel <= usize::MAX - off {
            match parse_chained_rule(data, off + rule_rel) {
                Some(rule) => {
                    rules.push(rule);
                    proof {
                        assert(rules@.drop_last() =~= rules_before);
                    }
                },
                None => {},
            }
        } else {
            proof {
                assert(!chained_rule_ok(data@, off + rule_rel));
            }
        }
        i += 1;
    }
    Some(rules)
}

/// Decodes the rule-set offset array shared by formats 1 and 2: `n`
/// offsets at `base`, each resolved against the subtable start; a null
/// offset or a malformed set yields `None` in its slot.
#[verifier::loop_isolation(false)]
fn parse_rule_sets(data: &[u8], subtable: usize, base: usize, n: usize) -> (r: Vec<
    Option<Vec<ChainedRule>>,
>)
    requires
        subtable <= data@.len(),
        base + 2 * n <= data@.len(),
    ensures
        r@.len() == n as int,
        forall|i: int|
            0 <= i < n ==> rule_set_slot_decodes(
                data@,
                subtable as int,
                u16_at(data@, base + 2 * i),
                #[trigger] r@[i],
            ),
{
    let dlen = data.len();
    let mut sets: Vec<Option<Vec<ChainedRule>>> = Vec::new();
    let mut i: usize = 0;
    while i < n
        invariant
            i <= n,
            sets@.len() == i as int,
            forall|j: int|
                0 <= j < i ==> rule_set_slot_decodes(
                    data@,
                    subtable as int,
                    u16_at(data@, base + 2 * j),
                    #[trigger] sets@[j],
                ),
        decreases n - i,
    {
        let rel = read_u16(data, base + 2 * i);
        if rel == 0 {
            sets.push(None);
        } else {
            sets.push(parse_rule_set(data, subtable, rel));
        }
        i += 1;
    }
    sets
}

/// Decodes a format-1 chained context at `offset`.
#[verifier::loop_isolation(false)]
pub fn parse_chained_f1(data: &[u8], offset: usize) -> (r: Result<
    ChainedContextFormat1,
    ReadError,
>)
    ensures
        r.is_ok() == chained_f1_ok(data@, offset as int),
        r matches Ok(t) ==> t.coverage_offset == u16_at(data@, offset + 2) && opt_cov_view(
            t.coverage,
        ) == spec_parse_coverage(data@, offset + u16_at(data@, offset + 2)) && t.rule_sets@.len()
            == u16_at(data@, offset + 4) as int && forall|i: int|
            0 <= i < t.rule_sets@.len() ==> rule_set_slot_decodes(
                data@,
                offset as int,
                u16_at(data@, offset + 6 + 2 * i),
                #[trigger] t.rule_sets@[i],
            ),
{
    let dlen = data.len();
    if dlen < 6 || offset > dlen - 6 {
        return Err(ReadError::OutOfBounds);
    }
    let fmt = read_u16(data, offset);
    if fmt != 1 {
        return Err(ReadError::MalformedData);
    }
    let coverage_offset = read_u16(data, offset + 2);
    let n = read_u16(data, offset + 4) as usize;
    if n > (dlen - offset - 6) / 2 {
        return Err(ReadError::OutOfBounds);
    }
    let coverage = parse_coverage_at(data, offset, coverage_offset);
    let rule_sets = parse_rule_sets(data, offset, offset + 6, n);
    Ok(ChainedContextFormat1 { coverage_offset, coverage, rule_sets })
}

/// Decodes a format-2 chained context at `offset`.
#[verifier::loop_isolation(false)]
pub fn parse_chained_f2(data: &[u8], offset: usize) -> (r: Result<
    ChainedContextFormat2,
    ReadError,
>)
    ensures
        r.is_ok() == chained_f2_ok(data@, offset as int),
        r matches Ok(t) ==> t.coverage_offset == u16_at(data@, offset + 2) && opt_cov_view(
            t.coverage,
        ) == spec_parse_coverage(data@, offset + u16_at(data@, offset + 2)) && opt_cd_view(
            t.backtrack_classes,
        ) == spec_parse_class_def(data@, offset + u16_at(data@, offset + 4)) && opt_cd_view(
            t.input_classes,
        ) == spec_parse_class_def(data@, offset + u16_at(data@, offset + 6)) && opt_cd_view(
            t.lookahead_classes,
        ) == spec_parse_class_def(data@, offset + u16_at(data@, offset + 8)) && t.rule_sets@.len()
            == u16_at(data@, offset + 10) as int && forall|i: int|
            0 <= i < t.rule_sets@.len() ==> rule_set_slot_decodes(
                data@,
                offset as int,
                u16_at(data@, offset + 12 + 2 * i),
                #[trigger] t.rule_sets@[i],
            ),
{
    let dlen = data.len();
    if dlen < 12 || offset > dlen - 12 {
        return Err(ReadError::OutOfBounds);
    }
    let fmt = read_u16(data, offset);
    if fmt != 2 {
        return Err(ReadError::MalformedData);
    }
    let coverage_offset = read_u16(data, offset + 2);
    let bt_rel = read_u16(data, offset + 4);
    let in_rel = read_u16(data, offset + 6);
    let la_rel = read_u16(data, offset + 8);
    let n = read_u16(data, offset + 10) as usize;
    if n > (dlen - offset - 12) / 2 {
        return Err(ReadError::OutOfBounds);
    }
    let coverage = parse_coverage_at(data, offset, coverage_offset);
    let backtrack_classes = parse_class_def_at(data, offset, bt_rel);
    let input_classes = parse_class_def_at(data, offset, in_rel);
    let lookahead_classes = parse_class_def_at(data, offset, la_rel);
    let rule_sets = parse_rule_sets(data, offset, offset + 12, n);
    Ok(
        ChainedContextFormat2 {
            coverage_offset,
            coverage,
            backtrack_classes,
            input_classes,
            lookahead_classes,
            rule_sets,
        },
    )
}

/// Decodes `n` coverage offsets at `base`, each resolved against the
/// subtable start.
#[verifier::loop_isolation(false)]
fn parse_coverage_list(data: &[u8], subtable: usize, base: usize, n: usize) -> (r: Vec<
    Option<CoverageTable>,
>)
    requires
        subtable <= data@.len(),
        base + 2 * n <= data@.len(),
    ensures
        r@.len() == n as int,
        forall|i: int|
            0 <= i < n ==> opt_cov_view(#[trigger] r@[i]) == spec_parse_coverage(
                data@,
                subtable + u16_at(data@, base + 2 * i),
            ),
{
    let dlen = data.len();
    let mut covs: Vec<Option<CoverageTable>> = Vec::new();
    let mut i: usize = 0;
    while i < n
        invariant
            i <= n,
            covs@.len() == i as int,
            forall|j: int|
                0 <= j < i ==> opt_cov_view(#[trigger] covs@[j]) == spec_parse_coverage(
                    data@,
                    subtable + u16_at(data@, base + 2 * j),
                ),
        decreases n - i,
    {
        let rel = read_u16(data, base + 2 * i);
        covs.push(parse_coverage_at(data, subtable, rel));
        i += 1;
    }
    covs
}

/// Decodes a format-3 chained context at `offset`.
#[verifier::loop_isolation(false)]
pub fn parse_chained_f3(data: &[u8], offset: usize) -> (r: Result<
    ChainedContextFormat3,
    ReadError,
>)
    ensures
        r.is_ok() == chained_f3_ok(data@, offset as int),
        r matches Ok(t) ==> {
            let d = data@;
            let off = offset as int;
            &&& t.backtrack_coverages@.len() == f3_bt_count(d, off)
            &&& forall|i: int|
                0 <= i < f3_bt_count(d, off) ==> opt_cov_view(
                    #[trigger] t.backtrack_coverages@[i],
                ) == spec_parse_coverage(d, off + u16_at(d, off + 4 + 2 * i))
            &&& t.input_coverages@.len() == f3_in_count(d, off)
            &&& forall|i: int|
                0 <= i < f3_in_count(d, off) ==> opt_cov_view(#[trigger] t.input_coverages@[i])
                    == spec_parse_coverage(d, off + u16_at(d, f3_in_pos(d, off) + 2 + 2 * i))
            &&& t.lookahead_coverages@.len() == f3_la_count(d, off)
            &&& forall|i: int|
                0 <= i < f3_la_count(d, off) ==> opt_cov_view(#[trigger] t.lookahead_coverages@[i])
                    == spec_parse_coverage(d, off + u16_at(d, f3_la_pos(d, off) + 2 + 2 * i))
            &&& t.records@.len() == f3_rec_count(d, off)
            &&& forall|i: int|
                0 <= i < f3_rec_count(d, off) ==> #[trigger] t.records@[i]
                    == (SequenceLookupRecord {
                    sequence_index: u16_at(d, f3_rec_pos(d, off) + 2 + 4 * i),
                    lookup_list_index: u16_at(d, f3_rec_pos(d, off) + 2 + 4 * i + 2),
                })
            &&& t.first_input_coverage_offset == if f3_in_count(d, off) > 0 {
                u16_at(d, f3_in_pos(d, off) + 2)
            } else {
                0
            }
        },
{
    let dlen = data.len();
    if dlen < 4 || offset > dlen - 4 {
        return Err(ReadError::OutOfBounds);
    }
    let fmt = read_u16(data, offset);
    if fmt != 3 {
        return Err(ReadError::MalformedData);
    }
    let bc = read_u16(data, offset + 2) as usize;
    if bc > (dlen - offset - 4) / 2 {
        return Err(ReadError::OutOfBounds);
    }
    let in_pos = offset + 4 + 2 * bc;
    if dlen - in_pos < 2 {
        return Err(ReadError::OutOfBounds);
    }
    let ic = read_u16(data, in_pos) as usize;
    if ic > (dlen - in_pos - 2) / 2 {
        return Err(ReadError::OutOfBounds);
    }
    let la_pos = in_pos + 2 + 2 * ic;
    if dlen - la_pos < 2 {
        return Err(ReadError::OutOfBounds);
    }
    let lc = read_u16(data, la_pos) as usize;
    if lc > (dlen - la_pos - 2) / 2 {
        return Err(ReadError::OutOfBounds);
    }
    let rec_pos = la_pos + 2 + 2 * lc;
    if dlen - rec_pos < 2 {
        return Err(ReadError::OutOfBounds);
    }
    let sc = read_u16(data, rec_pos) as usize;
    if sc > (dlen - rec_pos - 2) / 4 {
        return Err(ReadError::OutOfBounds);
    }
    let backtrack_coverages = parse_coverage_list(data, offset, offset + 4, bc);
    let input_coverages = parse_coverage_list(data, offset, in_pos + 2, ic);
    let lookahead_coverages = parse_coverage_list(data, offset, la_pos + 2, lc);
    let records = parse_records(data, rec_pos + 2, sc);
    let first_input_coverage_offset = if ic > 0 {
        read_u16(data, in_pos + 2)
    } else {
        0
    };
    Ok(
        ChainedContextFormat3 {
            first_input_coverage_offset,
            backtrack_coverages,
            input_coverages,
            lookahead_coverages,
            records,
        },
    )
}


/// Inputs of a cheap applicability test: the glyph window under
/// consideration and whether surrounding context must be ignored.
pub struct WouldApplyContext {
    /// The window: current glyph first, then the following glyphs.
    pub glyphs: Vec<u16>,
    /// When set, a rule with backtrack or lookahead context never applies.
    pub zero_context: bool,
}

/// Selects the rule set at index `ci`; `None` where the index is out of
/// bounds or the set is null or malformed.
pub open spec fn select_rule_set(sets: Seq<Option<Vec<ChainedRule>>>, ci: int) -> Option<
    Seq<ChainedRule>,
> {
    if 0 <= ci < sets.len() {
        match sets[ci] {
            Some(v) => Some(v@),
            None => None,
        }
    } else {
        None
    }
}

/// Whether one glyph-id rule fully matches at the cursor.
pub open spec fn glyph_rule_matches(
    out: Seq<u16>,
    glyphs: Seq<u16>,
    idx: int,
    rule: ChainedRule,
) -> bool {
    chain_matches(
        out,
        glyphs,
        idx,
        MatchValues::GlyphValues(rule.backtrack@),
        MatchValues::GlyphValues(rule.input@),
        MatchValues::GlyphValues(rule.lookahead@),
    )
}

/// The boundary marker one failing glyph-id rule records.
pub open spec fn glyph_rule_fail_mark(
    out: Seq<u16>,
    glyphs: Seq<u16>,
    idx: int,
    rule: ChainedRule,
) -> UnsafeMark {
    chain_fail_mark(
        out,
        glyphs,
        idx,
        MatchValues::GlyphValues(rule.backtrack@),
        MatchValues::GlyphValues(rule.input@),
        MatchValues::GlyphValues(rule.lookahead@),
    )
}

/// The boundary marker a matching glyph-id rule records.
pub open spec fn glyph_rule_success_mark(
    out: Seq<u16>,
    glyphs: Seq<u16>,
    idx: int,
    rule: ChainedRule,
) -> UnsafeMark {
    chain_success_mark(
        out,
        glyphs,
        idx,
        MatchValues::GlyphValues(rule.backtrack@),
        MatchValues::GlyphValues(rule.input@),
        MatchValues::GlyphValues(rule.lookahead@),
    )
}

/// The invocations a matching rule reports.
pub open spec fn rule_invocations(idx: int, rule: ChainedRule) -> Seq<LookupInvocation> {
    spec_invocations(rule.records@, rule.input@.len() as int, idx)
}

/// Some glyph-id rule of the set matches.
pub open spec fn any_glyph_rule_matches(
    out: Seq<u16>,
    glyphs: Seq<u16>,
    idx: int,
    rules: Seq<ChainedRule>,
) -> bool {
    exists|k: int| 0 <= k < rules.len() && glyph_rule_matches(out, glyphs, idx, #[trigger] rules[k])
}

/// `k` is the first glyph-id rule of the set that matches.
pub open spec fn is_first_glyph_rule(
    out: Seq<u16>,
    glyphs: Seq<u16>,
    idx: int,
    rules: Seq<ChainedRule>,
    k: int,
) -> bool {
    0 <= k < rules.len() && glyph_rule_matches(out, glyphs, idx, rules[k]) && forall|j: int|
        0 <= j < k ==> !glyph_rule_matches(out, glyphs, idx, #[trigger] rules[j])
}

/// The fail markers the first `k` glyph-id rules record.
pub open spec fn glyph_fail_marks(
    out: Seq<u16>,
    glyphs: Seq<u16>,
    idx: int,
    rules: Seq<ChainedRule>,
    k: int,
) -> Seq<UnsafeMark> {
    Seq::new(k as nat, |j: int| glyph_rule_fail_mark(out, glyphs, idx, rules[j]))
}

impl ChainedContextFormat1 {
    /// The rule set the current glyph selects through the coverage table.
    pub open spec fn spec_selected_rules(self, g: u16) -> Option<Seq<ChainedRule>> {
        match self.coverage {
            Some(c) => match cov_get(c@, g) {
                Some(ci) => select_rule_set(self.rule_sets@, ci as int),
                None => None,
            },
            None => None,
        }
    }

    /// The cheap applicability test never accepts a format-1 rule: it is
    /// only evaluated during real application.
    pub fn would_apply(&self, ctx: &WouldApplyContext) -> (r: bool)
        ensures
            r == false,
    {
        false
    }

    /// Tries the selected rule set's rules in declaration order and stops
    /// at the first full match, reporting its nested-lookup invocations;
    /// every rule tried before it records its failure marker.
    #[verifier::loop_isolation(false)]
    #[verifier::rlimit(80)]
    pub fn apply(&self, buf: &mut MatchBuffer) -> (r: Option<Vec<LookupInvocation>>)
        requires
            old(buf).idx < old(buf).glyphs@.len(),
        ensures
            final(buf).out@ == old(buf).out@,
            final(buf).glyphs@ == old(buf).glyphs@,
            final(buf).idx == old(buf).idx,
            match self.spec_selected_rules(old(buf).glyphs@[old(buf).idx as int]) {
                None => r is None && final(buf).marks@ == old(buf).marks@,
                Some(rules) => {
                    let out0 = old(buf).out@;
                    let glyphs0 = old(buf).glyphs@;
                    let idx0 = old(buf).idx as int;
                    &&& r.is_some() == any_glyph_rule_matches(out0, glyphs0, idx0, rules)
                    &&& (r matches Some(v) ==> exists|k: int|
                        #[trigger] is_first_glyph_rule(out0, glyphs0, idx0, rules, k) && v@
                            == rule_invocations(idx0, rules[k]) && final(buf).marks@ == old(buf).marks@ + glyph_fail_marks(out0, glyphs0, idx0, rules, k).push(
                            glyph_rule_success_mark(out0, glyphs0, idx0, rules[k]),
                        ))
                    &&& (r is None ==> final(buf).marks@ == old(buf).marks@ + glyph_fail_marks(
                        out0,
                        glyphs0,
                        idx0,
                        rules,
                        rules.len() as int,
                    ))
                },
            },
    {
        let g = buf.cur();
        let cov = match &self.coverage {
            Some(c) => c,
            None => {
                return None;
            },
        };
        let ci = match cov.get(g) {
            Some(ci) => ci as usize,
            None => {
                return None;
            },
        };
        if ci >= self.rule_sets.len() {
            return None;
        }
        let set = match &self.rule_sets[ci] {
            Some(s) => s,
            None => {
                return None;
            },
        };
        let ghost out0 = buf.out@;
        let ghost glyphs0 = buf.glyphs@;
        let ghost idx0 = buf.idx as int;
        let ghost marks0 = buf.marks@;
        let ghost rules = set@;
        proof {
            assert(self.spec_selected_rules(glyphs0[idx0]) == Some(rules));
        }
        let mut k: usize = 0;
        while k < set.len()
            invariant
                self.spec_selected_rules(glyphs0[idx0]) == Some(rules),
                k <= set@.len(),
                buf.out@ == out0,
                buf.glyphs@ == glyphs0,
                buf.idx as int == idx0,
                buf.marks@ == marks0 + glyph_fail_marks(out0, glyphs0, idx0, rules, k as int),
                forall|j: int|
                    0 <= j < k ==> !glyph_rule_matches(out0, glyphs0, idx0, #[trigger] rules[j]),
            decreases set@.len() - k,
        {
            let rule = &set[k];
            let bm = SeqMatcher::Glyphs(&rule.backtrack);
            let im = SeqMatcher::Glyphs(&rule.input);
            let lm = SeqMatcher::Glyphs(&rule.lookahead);
            let ghost marks_before = buf.marks@;
            let res = apply_chain_context(buf, &bm, &im, &lm, &rule.records);
            proof {
                assert(bm@ == MatchValues::GlyphValues(rules[k as int].backtrack@));
                assert(im@ == MatchValues::GlyphValues(rules[k as int].input@));
                assert(lm@ == MatchValues::GlyphValues(rules[k as int].lookahead@));
            }
            match res {
                Some(v) => {
                    proof {
                        assert(glyph_rule_matches(out0, glyphs0, idx0, rules[k as int]));
                        assert(is_first_glyph_rule(out0, glyphs0, idx0, rules, k as int));
                        assert(any_glyph_rule_matches(out0, glyphs0, idx0, rules));
                        assert(v@ == rule_invocations(idx0, rules[k as int]));
                        assert(buf.marks@ =~= marks0 + glyph_fail_marks(
                            out0,
                            glyphs0,
                            idx0,
                            rules,
                            k as int,
                        ).push(glyph_rule_success_mark(out0, glyphs0, idx0, rules[k as int])));
                        assert(exists|kk: int|
                            #[trigger] is_first_glyph_rule(out0, glyphs0, idx0, rules, kk) && v@
                                == rule_invocations(idx0, rules[kk]) && buf.marks@ == marks0
                                + glyph_fail_marks(out0, glyphs0, idx0, rules, kk).push(
                                glyph_rule_success_mark(out0, glyphs0, idx0, rules[kk]),
                            )) by {
                            assert(is_first_glyph_rule(out0, glyphs0, idx0, rules, k as int)
                                && v@ == rule_invocations(idx0, rules[k as int]) && buf.marks@
                                == marks0 + glyph_fail_marks(out0, glyphs0, idx0, rules,
                            k as int).push(
                                glyph_rule_success_mark(out0, glyphs0, idx0, rules[k as int]),
                            ));
                        }
                    }
                    return Some(v);
                },
                None => {
                    proof {
                        assert(!glyph_rule_matches(out0, glyphs0, idx0, rules[k as int]));
                        assert(buf.marks@ =~= marks0 + glyph_fail_marks(
                            out0,
                            glyphs0,
                            idx0,
                            rules,
                            k as int + 1,
                        ));
                    }
                },
            }
            k += 1;
        }
        proof {
            if any_glyph_rule_matches(out0, glyphs0, idx0, rules) {
                let w = choose|w: int|
                    0 <= w < rules.len() && glyph_rule_matches(out0, glyphs0, idx0, rules[w]);
                assert(!glyph_rule_matches(out0, glyphs0, idx0, rules[w]));
            }
        }
        None
    }
}


/// Whether one class rule fully matches at the cursor, under the three
/// class maps.
pub open spec fn class_rule_matches(
    out: Seq<u16>,
    glyphs: Seq<u16>,
    idx: int,
    bcd: Option<ClassDef>,
    icd: Option<ClassDef>,
    lcd: Option<ClassDef>,
    rule: ChainedRule,
) -> bool {
    chain_matches(
        out,
        glyphs,
        idx,
        MatchValues::ClassValues(bcd, rule.backtrack@),
        MatchValues::ClassValues(icd, rule.input@),
        MatchValues::ClassValues(lcd, rule.lookahead@),
    )
}

/// The boundary marker one failing class rule records.
pub open spec fn class_rule_fail_mark(
    out: Seq<u16>,
    glyphs: Seq<u16>,
    idx: int,
    bcd: Option<ClassDef>,
    icd: Option<ClassDef>,
    lcd: Option<ClassDef>,
    rule: ChainedRule,
) -> UnsafeMark {
    chain_fail_mark(
        out,
        glyphs,
        idx,
        MatchValues::ClassValues(bcd, rule.backtrack@),
        MatchValues::ClassValues(icd, rule.input@),
        MatchValues::ClassValues(lcd, rule.lookahead@),
    )
}

/// The boundary marker a matching class rule records.
pub open spec fn class_rule_success_mark(
    out: Seq<u16>,
    glyphs: Seq<u16>,
    idx: int,
    bcd: Option<ClassDef>,
    icd: Option<ClassDef>,
    lcd: Option<ClassDef>,
    rule: ChainedRule,
) -> UnsafeMark {
    chain_success_mark(
        out,
        glyphs,
        idx,
        MatchValues::ClassValues(bcd, rule.backtrack@),
        MatchValues::ClassValues(icd, rule.input@),
        MatchValues::ClassValues(lcd, rule.lookahead@),
    )
}

/// Some class rule of the set matches.
pub open spec fn any_class_rule_matches(
    out: Seq<u16>,
    glyphs: Seq<u16>,
    idx: int,
    bcd: Option<ClassDef>,
    icd: Option<ClassDef>,
    lcd: Option<ClassDef>,
    rules: Seq<ChainedRule>,
) -> bool {
    exists|k: int|
        0 <= k < rules.len() && class_rule_matches(
            out,
            glyphs,
            idx,
            bcd,
            icd,
            lcd,
            #[trigger] rules[k],
        )
}

/// `k` is the first class rule of the set that matches.
pub open spec fn is_first_class_rule(
    out: Seq<u16>,
    glyphs: Seq<u16>,
    idx: int,
    bcd: Option<ClassDef>,
    icd: Option<ClassDef>,
    lcd: Option<ClassDef>,
    rules: Seq<ChainedRule>,
    k: int,
) -> bool {
    0 <= k < rules.len() && class_rule_matches(out, glyphs, idx, bcd, icd, lcd, rules[k])
        && forall|j: int|
        0 <= j < k ==> !class_rule_matches(out, glyphs, idx, bcd, icd, lcd, #[trigger] rules[j])
}

/// The fail markers the first `k` class rules record.
pub open spec fn class_fail_marks(
    out: Seq<u16>,
    glyphs: Seq<u16>,
    idx: int,
    bcd: Option<ClassDef>,
    icd: Option<ClassDef>,
    lcd: Option<ClassDef>,
    rules: Seq<ChainedRule>,
    k: int,
) -> Seq<UnsafeMark> {
    Seq::new(k as nat, |j: int| class_rule_fail_mark(out, glyphs, idx, bcd, icd, lcd, rules[j]))
}

impl ChainedContextFormat2 {
    /// The rule set selected for the current glyph: the coverage table
    /// gates it, the input class map picks the set.
    pub open spec fn spec_selected_rules(self, g: u16) -> Option<Seq<ChainedRule>> {
        match self.coverage {
            Some(c) => if cov_get(c@, g) is Some {
                match self.input_classes {
                    Some(icd) => select_rule_set(self.rule_sets@, class_of(icd@, g) as int),
                    None => None,
                }
            } else {
                None
            },
            None => None,
        }
    }

    /// The cheap applicability test never accepts a format-2 rule: it is
    /// only evaluated during real application.
    pub fn would_apply(&self, ctx: &WouldApplyContext) -> (r: bool)
        ensures
            r == false,
    {
        false
    }

    /// Tries the selected rule set's rules in declaration order and stops
    /// at the first full match, reporting its nested-lookup invocations;
    /// every rule tried before it records its failure marker.
    #[verifier::loop_isolation(false)]
    #[verifier::rlimit(80)]
    pub fn apply(&self, buf: &mut MatchBuffer) -> (r: Option<Vec<LookupInvocation>>)
        requires
            old(buf).idx < old(buf).glyphs@.len(),
        ensures
            final(buf).out@ == old(buf).out@,
            final(buf).glyphs@ == old(buf).glyphs@,
            final(buf).idx == old(buf).idx,
            match self.spec_selected_rules(old(buf).glyphs@[old(buf).idx as int]) {
                None => r is None && final(buf).marks@ == old(buf).marks@,
                Some(rules) => {
                    let out0 = old(buf).out@;
                    let glyphs0 = old(buf).glyphs@;
                    let idx0 = old(buf).idx as int;
                    let bcd = self.backtrack_classes;
                    let icd = self.input_classes;
                    let lcd = self.lookahead_classes;
                    &&& r.is_some() == any_class_rule_matches(
                        out0,
                        glyphs0,
                        idx0,
                        bcd,
                        icd,
                        lcd,
                        rules,
                    )
                    &&& (r matches Some(v) ==> exists|k: int|
                        #[trigger] is_first_class_rule(
                            out0,
                            glyphs0,
                            idx0,
                            bcd,
                            icd,
                            lcd,
                            rules,
                            k,
                        ) && v@ == rule_invocations(idx0, rules[k]) && final(buf).marks@ == old(buf).marks@ + class_fail_marks(out0, glyphs0, idx0, bcd, icd, lcd, rules,
                        k).push(
                            class_rule_success_mark(out0, glyphs0, idx0, bcd, icd, lcd, rules[k]),
                        ))
                    &&& (r is None ==> final(buf).marks@ == old(buf).marks@ + class_fail_marks(
                        out0,
                        glyphs0,
                        idx0,
                        bcd,
                        icd,
                        lcd,
                        rules,
                        rules.len() as int,
                    ))
                },
            },
    {
        let g = buf.cur();
        let cov = match &self.coverage {
            Some(c) => c,
            None => {
                return None;
            },
        };
        if cov.get(g).is_none() {
            return None;
        }
        let icd_ref = match &self.input_classes {
            Some(icd) => icd,
            None => {
                return None;
            },
        };
        let ci = icd_ref.get(g) as usize;
        if ci >= self.rule_sets.len() {
            return None;
        }
        let set = match &self.rule_sets[ci] {
            Some(s) => s,
            None => {
                return None;
            },
        };
        let ghost out0 = buf.out@;
        let ghost glyphs0 = buf.glyphs@;
        let ghost idx0 = buf.idx as int;
        let ghost marks0 = buf.marks@;
        let ghost rules = set@;
        let ghost bcd = self.backtrack_classes;
        let ghost icd = self.input_classes;
        let ghost lcd = self.lookahead_classes;
        proof {
            assert(self.spec_selected_rules(glyphs0[idx0]) == Some(rules));
        }
        let mut k: usize = 0;
        while k < set.len()
            invariant
                self.spec_selected_rules(glyphs0[idx0]) == Some(rules),
                k <= set@.len(),
                buf.out@ == out0,
                buf.glyphs@ == glyphs0,
                buf.idx as int == idx0,
                buf.marks@ == marks0 + class_fail_marks(
                    out0,
                    glyphs0,
                    idx0,
                    bcd,
                    icd,
                    lcd,
                    rules,
                    k as int,
                ),
                forall|j: int|
                    0 <= j < k ==> !class_rule_matches(
                        out0,
                        glyphs0,
                        idx0,
                        bcd,
                        icd,
                        lcd,
                        #[trigger] rules[j],
                    ),
            decreases set@.len() - k,
        {
            let rule = &set[k];
            let bm = SeqMatcher::Classes(&self.backtrack_classes, &rule.backtrack);
            let im = SeqMatcher::Classes(&self.input_classes, &rule.input);
            let lm = SeqMatcher::Classes(&self.lookahead_classes, &rule.lookahead);
            let res = apply_chain_context(buf, &bm, &im, &lm, &rule.records);
            proof {
                assert(bm@ == MatchValues::ClassValues(bcd, rules[k as int].backtrack@));
                assert(im@ == MatchValues::ClassValues(icd, rules[k as int].input@));
                assert(lm@ == MatchValues::ClassValues(lcd, rules[k as int].lookahead@));
            }
            match res {
                Some(v) => {
                    proof {
                        assert(class_rule_matches(
                            out0,
                            glyphs0,
                            idx0,
                            bcd,
                            icd,
                            lcd,
                            rules[k as int],
                        ));
                        assert(is_first_class_rule(
                            out0,
                            glyphs0,
                            idx0,
                            bcd,
                            icd,
                            lcd,
                            rules,
                            k as int,
                        ));
                        assert(any_class_rule_matches(out0, glyphs0, idx0, bcd, icd, lcd, rules));
                        assert(v@ == rule_invocations(idx0, rules[k as int]));
                        assert(buf.marks@ =~= marks0 + class_fail_marks(
                            out0,
                            glyphs0,
                            idx0,
                            bcd,
                            icd,
                            lcd,
                            rules,
                            k as int,
                        ).push(
                            class_rule_success_mark(
                                out0,
                                glyphs0,
                                idx0,
                                bcd,
                                icd,
                                lcd,
                                rules[k as int],
                            ),
                        ));
                        assert(exists|kk: int|
                            #[trigger] is_first_class_rule(
                                out0,
                                glyphs0,
                                idx0,
                                bcd,
                                icd,
                                lcd,
                                rules,
                                kk,
                            ) && v@ == rule_invocations(idx0, rules[kk]) && buf.marks@ == marks0
                                + class_fail_marks(out0, glyphs0, idx0, bcd, icd, lcd, rules,
                            kk).push(
                                class_rule_success_mark(
                                    out0,
                                    glyphs0,
                                    idx0,
                                    bcd,
                                    icd,
                                    lcd,
                                    rules[kk],
                                ),
                            )) by {
                            assert(is_first_class_rule(
                                out0,
                                glyphs0,
                                idx0,
                                bcd,
                                icd,
                                lcd,
                                rules,
                                k as int,
                            ) && v@ == rule_invocations(idx0, rules[k as int]) && buf.marks@
                                == marks0 + class_fail_marks(out0, glyphs0, idx0, bcd, icd, lcd,
                            rules, k as int).push(
                                class_rule_success_mark(
                                    out0,
                                    glyphs0,
                                    idx0,
                                    bcd,
                                    icd,
                                    lcd,
                                    rules[k as int],
                                ),
                            ));
                        }
                    }
                    return Some(v);
                },
                None => {
                    proof {
                        assert(!class_rule_matches(
                            out0,
                            glyphs0,
                            idx0,
                            bcd,
                            icd,
                            lcd,
                            rules[k as int],
                        ));
                        assert(buf.marks@ =~= marks0 + class_fail_marks(
                            out0,
                            glyphs0,
                            idx0,
                            bcd,
                            icd,
                            lcd,
                            rules,
                            k as int + 1,
                        ));
                    }
                },
            }
            k += 1;
        }
        proof {
            if any_class_rule_matches(out0, glyphs0, idx0, bcd, icd, lcd, rules) {
                let w = choose|w: int|
                    0 <= w < rules.len() && class_rule_matches(
                        out0,
                        glyphs0,
                        idx0,
                        bcd,
                        icd,
                        lcd,
                        rules[w],
                    );
                assert(!class_rule_matches(out0, glyphs0, idx0, bcd, icd, lcd, rules[w]));
            }
        }
        None
    }
}

/// Whether position `i` of the window is covered by input coverage `i`.
pub open spec fn window_pos_covered(
    ics: Seq<Option<CoverageTable>>,
    glyphs: Seq<u16>,
    i: int,
) -> bool {
    coverage_values_match(ics, i, glyphs[i + 1])
}

/// Every input coverage from index 1 on covers its window position.
pub open spec fn window_covered(ics: Seq<Option<CoverageTable>>, glyphs: Seq<u16>) -> bool {
    forall|i: int| 0 <= i < ics.len() ==> window_pos_covered(ics, glyphs, i)
}

impl ChainedContextFormat3 {
    /// The single rule of this subtable, as matcher models.
    pub open spec fn spec_rule_matches(self, out: Seq<u16>, glyphs: Seq<u16>, idx: int) -> bool {
        chain_matches(
            out,
            glyphs,
            idx,
            MatchValues::CoverageValues(self.backtrack_coverages@, 0),
            MatchValues::CoverageValues(self.input_coverages@, 1),
            MatchValues::CoverageValues(self.lookahead_coverages@, 0),
        )
    }

    /// Whether the first input coverage admits the current glyph.
    pub open spec fn spec_gate(self, g: u16) -> bool {
        self.input_coverages@.len() >= 1 && coverage_values_match(self.input_coverages@, 0, g)
    }

    /// The cheap applicability test: true exactly when the window length
    /// equals the input length plus one, every window position from the
    /// second on is covered by its input coverage, and, when surrounding
    /// context is to be ignored, the rule declares none.
    pub open spec fn spec_would_apply(self, glyphs: Seq<u16>, zero_context: bool) -> bool {
        (!zero_context || (self.backtrack_coverages@.len() == 0
            && self.lookahead_coverages@.len() == 0)) && glyphs.len()
            == self.input_coverages@.len() + 1 && window_covered(self.input_coverages@, glyphs)
    }

    /// Cheap applicability check against a glyph window; mutates nothing.
    #[verifier::loop_isolation(false)]
    pub fn would_apply(&self, ctx: &WouldApplyContext) -> (r: bool)
        ensures
            r == self.spec_would_apply(ctx.glyphs@, ctx.zero_context),
    {
        if ctx.zero_context && !(self.backtrack_coverages.len() == 0
            && self.lookahead_coverages.len() == 0) {
            return false;
        }
        let n = self.input_coverages.len();
        if ctx.glyphs.len() == 0 || ctx.glyphs.len() - 1 != n {
            return false;
        }
        let mut i: usize = 0;
        while i < n
            invariant
                i <= n,
                forall|j: int|
                    0 <= j < i ==> window_pos_covered(self.input_coverages@, ctx.glyphs@, j),
            decreases n - i,
        {
            let hit = match &self.input_coverages[i] {
                Some(c) => c.covers(ctx.glyphs[i + 1]),
                None => false,
            };
            if !hit {
                proof {
                    assert(!window_pos_covered(self.input_coverages@, ctx.glyphs@, i as int));
                }
                return false;
            }
            proof {
                assert(window_pos_covered(self.input_coverages@, ctx.glyphs@, i as int));
            }
            i += 1;
        }
        true
    }

    /// Applies the single coverage rule at the cursor: the first input
    /// coverage gates the current glyph, then the three-phase match runs;
    /// a failure records its span as unsafe.
    pub fn apply(&self, buf: &mut MatchBuffer) -> (r: Option<Vec<LookupInvocation>>)
        requires
            old(buf).idx < old(buf).glyphs@.len(),
        ensures
            final(buf).out@ == old(buf).out@,
            final(buf).glyphs@ == old(buf).glyphs@,
            final(buf).idx == old(buf).idx,
            !self.spec_gate(old(buf).glyphs@[old(buf).idx as int]) ==> r is None
                && final(buf).marks@ == old(buf).marks@,
            self.spec_gate(old(buf).glyphs@[old(buf).idx as int]) ==> {
                let out0 = old(buf).out@;
                let glyphs0 = old(buf).glyphs@;
                let idx0 = old(buf).idx as int;
                let bm = MatchValues::CoverageValues(self.backtrack_coverages@, 0);
                let im = MatchValues::CoverageValues(self.input_coverages@, 1);
                let lm = MatchValues::CoverageValues(self.lookahead_coverages@, 0);
                &&& r.is_some() == self.spec_rule_matches(out0, glyphs0, idx0)
                &&& (r matches Some(v) ==> v@ == spec_invocations(
                    self.records@,
                    self.input_coverages@.len() - 1,
                    idx0,
                ) && final(buf).marks@ == old(buf).marks@.push(
                    chain_success_mark(out0, glyphs0, idx0, bm, im, lm),
                ))
                &&& (r is None ==> final(buf).marks@ == old(buf).marks@.push(
                    chain_fail_mark(out0, glyphs0, idx0, bm, im, lm),
                ))
            },
    {
        let g = buf.cur();
        if self.input_coverages.len() == 0 {
            return None;
        }
        let gate = match &self.input_coverages[0] {
            Some(c) => c.covers(g),
            None => false,
        };
        if !gate {
            proof {
                assert(!coverage_values_match(self.input_coverages@, 0, g));
            }
            return None;
        }
        let bm = SeqMatcher::Coverages(&self.backtrack_coverages, 0);
        let im = SeqMatcher::Coverages(&self.input_coverages, 1);
        let lm = SeqMatcher::Coverages(&self.lookahead_coverages, 0);
        apply_chain_context(buf, &bm, &im, &lm, &self.records)
    }
}

} // verus!
