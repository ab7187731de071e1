//! Tests for chained-context rule application: rule precedence, the
//! cheap applicability check, unsafe-boundary markers and reported
//! nested-lookup invocations.

use otlookups::classdef::ClassDef;
use otlookups::contextual::{
    ChainedContextFormat1, ChainedContextFormat2, ChainedContextFormat3, ChainedRule,
    WouldApplyContext,
};
use otlookups::coverage::CoverageTable;
use otlookups::matching::{MatchBuffer, SequenceLookupRecord, UnsafeMarkKind};
use otlookups::subtable::Subtable;

fn cov(glyphs: Vec<u16>) -> CoverageTable {
    CoverageTable::Format1 { glyphs }
}

fn buffer(out: Vec<u16>, glyphs: Vec<u16>, idx: usize) -> MatchBuffer {
    MatchBuffer { out, glyphs, idx, marks: Vec::new() }
}

fn rec(sequence_index: u16, lookup_list_index: u16) -> SequenceLookupRecord {
    SequenceLookupRecord { sequence_index, lookup_list_index }
}

#[test]
fn format1_would_apply_is_always_false() {
    let t = ChainedContextFormat1 {
        coverage_offset: 0,
        coverage: Some(cov(vec![10])),
        rule_sets: Vec::new(),
    };
    let ctx = WouldApplyContext { glyphs: vec![10], zero_context: false };
    assert!(!t.would_apply(&ctx));
}

#[test]
fn format1_first_failing_rule_then_second_matches() {
    // Rule 1's lookahead cannot match; rule 2 matches fully. Only rule
    // 2's nested lookups may be reported.
    let rule1 = ChainedRule {
        backtrack: vec![],
        input: vec![],
        lookahead: vec![99],
        records: vec![rec(0, 7)],
    };
    let rule2 = ChainedRule {
        backtrack: vec![],
        input: vec![11],
        lookahead: vec![],
        records: vec![rec(1, 3), rec(0, 2)],
    };
    let t = ChainedContextFormat1 {
        coverage_offset: 0,
        coverage: Some(cov(vec![10])),
        rule_sets: vec![Some(vec![rule1, rule2])],
    };
    let mut buf = buffer(vec![], vec![10, 11, 12], 0);
    let invs = t.apply(&mut buf).unwrap();
    assert_eq!(invs.len(), 2);
    assert_eq!(invs[0].sequence_index, 1);
    assert_eq!(invs[0].buffer_index, 1);
    assert_eq!(invs[0].lookup_index, 3);
    assert_eq!(invs[1].sequence_index, 0);
    assert_eq!(invs[1].buffer_index, 0);
    assert_eq!(invs[1].lookup_index, 2);
    // Rule 1 failed in its lookahead, rule 2 matched: one failure marker
    // then the success marker.
    assert_eq!(buf.marks.len(), 2);
    assert_eq!(buf.marks[0].kind, UnsafeMarkKind::Concat);
    assert_eq!(buf.marks[0].start, 0);
    assert_eq!(buf.marks[0].end, 1);
    assert_eq!(buf.marks[1].kind, UnsafeMarkKind::BreakFromOutbuffer);
    assert_eq!(buf.marks[1].start, 0);
    assert_eq!(buf.marks[1].end, 2);
}

#[test]
fn format1_stops_at_first_matching_rule() {
    // Both rules match; only the first one's lookups are reported and the
    // second is never evaluated (a single success marker).
    let rule1 = ChainedRule {
        backtrack: vec![],
        input: vec![],
        lookahead: vec![],
        records: vec![rec(0, 4)],
    };
    let rule2 = ChainedRule {
        backtrack: vec![],
        input: vec![],
        lookahead: vec![],
        records: vec![rec(0, 9)],
    };
    let t = ChainedContextFormat1 {
        coverage_offset: 0,
        coverage: Some(cov(vec![10])),
        rule_sets: vec![Some(vec![rule1, rule2])],
    };
    let mut buf = buffer(vec![], vec![10], 0);
    let invs = t.apply(&mut buf).unwrap();
    assert_eq!(invs.len(), 1);
    assert_eq!(invs[0].lookup_index, 4);
    assert_eq!(buf.marks.len(), 1);
    assert_eq!(buf.marks[0].kind, UnsafeMarkKind::BreakFromOutbuffer);
}

#[test]
fn format1_uncovered_glyph_does_nothing() {
    let t = ChainedContextFormat1 {
        coverage_offset: 0,
        coverage: Some(cov(vec![10])),
        rule_sets: vec![Some(vec![])],
    };
    let mut buf = buffer(vec![], vec![55], 0);
    assert!(t.apply(&mut buf).is_none());
    assert!(buf.marks.is_empty());
}

#[test]
fn format1_backtrack_is_scanned_backwards() {
    // Backtrack values are nearest-first: with output [1, 2, 3] a rule
    // asking for backtrack [3, 2] matches.
    let rule = ChainedRule {
        backtrack: vec![3, 2],
        input: vec![],
        lookahead: vec![],
        records: vec![],
    };
    let t = ChainedContextFormat1 {
        coverage_offset: 0,
        coverage: Some(cov(vec![10])),
        rule_sets: vec![Some(vec![rule])],
    };
    let mut buf = buffer(vec![1, 2, 3], vec![10], 0);
    assert!(t.apply(&mut buf).is_some());
    assert_eq!(buf.marks[0].start, 1);

    let rule_wrong = ChainedRule {
        backtrack: vec![2, 3],
        input: vec![],
        lookahead: vec![],
        records: vec![],
    };
    let t2 = ChainedContextFormat1 {
        coverage_offset: 0,
        coverage: Some(cov(vec![10])),
        rule_sets: vec![Some(vec![rule_wrong])],
    };
    let mut buf2 = buffer(vec![1, 2, 3], vec![10], 0);
    assert!(t2.apply(&mut buf2).is_none());
    assert_eq!(buf2.marks[0].kind, UnsafeMarkKind::ConcatFromOutbuffer);
}

#[test]
fn format2_matches_by_class() {
    // Glyph 10 has class 1, glyph 11 class 2. The rule set is selected by
    // the input class of the current glyph; positions match by class.
    let classes = ClassDef::Format1 { start_glyph: 10, classes: vec![1, 2] };
    let rule = ChainedRule {
        backtrack: vec![],
        input: vec![2],
        lookahead: vec![],
        records: vec![rec(0, 6)],
    };
    let t = ChainedContextFormat2 {
        coverage_offset: 0,
        coverage: Some(cov(vec![10])),
        backtrack_classes: Some(classes.clone()),
        input_classes: Some(classes.clone()),
        lookahead_classes: Some(classes),
        rule_sets: vec![None, Some(vec![rule])],
    };
    let mut buf = buffer(vec![], vec![10, 11], 0);
    let invs = t.apply(&mut buf).unwrap();
    assert_eq!(invs.len(), 1);
    assert_eq!(invs[0].lookup_index, 6);
}

#[test]
fn format2_without_class_map_matches_nothing() {
    let rule = ChainedRule {
        backtrack: vec![],
        input: vec![2],
        lookahead: vec![],
        records: vec![],
    };
    let t = ChainedContextFormat2 {
        coverage_offset: 0,
        coverage: Some(cov(vec![10])),
        backtrack_classes: None,
        input_classes: None,
        lookahead_classes: None,
        rule_sets: vec![Some(vec![rule])],
    };
    let mut buf = buffer(vec![], vec![10, 11], 0);
    assert!(t.apply(&mut buf).is_none());
}

fn f3(
    backtrack: Vec<Option<CoverageTable>>,
    input: Vec<Option<CoverageTable>>,
    lookahead: Vec<Option<CoverageTable>>,
    records: Vec<SequenceLookupRecord>,
) -> ChainedContextFormat3 {
    ChainedContextFormat3 {
        first_input_coverage_offset: 0,
        backtrack_coverages: backtrack,
        input_coverages: input,
        lookahead_coverages: lookahead,
        records,
    }
}

#[test]
fn format3_would_apply_exact_window() {
    let t = f3(vec![], vec![Some(cov(vec![5])), Some(cov(vec![6]))], vec![], vec![]);
    let yes = WouldApplyContext { glyphs: vec![4, 5, 6], zero_context: false };
    assert!(t.would_apply(&yes));
    let short = WouldApplyContext { glyphs: vec![4, 5], zero_context: false };
    assert!(!t.would_apply(&short));
    let wrong = WouldApplyContext { glyphs: vec![4, 5, 7], zero_context: false };
    assert!(!t.would_apply(&wrong));
}

#[test]
fn format3_would_apply_zero_context_needs_no_surroundings() {
    let plain = f3(vec![], vec![Some(cov(vec![5]))], vec![], vec![]);
    let ctx = WouldApplyContext { glyphs: vec![4, 5], zero_context: true };
    assert!(plain.would_apply(&ctx));
    let with_lookahead = f3(vec![], vec![Some(cov(vec![5]))], vec![Some(cov(vec![9]))], vec![]);
    let ctx2 = WouldApplyContext { glyphs: vec![4, 5], zero_context: true };
    assert!(!with_lookahead.would_apply(&ctx2));
}

#[test]
fn format3_apply_matches_and_reports_invocations() {
    let t = f3(
        vec![],
        vec![Some(cov(vec![5])), Some(cov(vec![6]))],
        vec![],
        vec![rec(0, 4)],
    );
    let mut buf = buffer(vec![], vec![5, 6], 0);
    let invs = t.apply(&mut buf).unwrap();
    assert_eq!(invs.len(), 1);
    assert_eq!(invs[0].buffer_index, 0);
    assert_eq!(invs[0].lookup_index, 4);
    assert_eq!(buf.marks.len(), 1);
    assert_eq!(buf.marks[0].kind, UnsafeMarkKind::BreakFromOutbuffer);
    assert_eq!(buf.marks[0].start, 0);
    assert_eq!(buf.marks[0].end, 2);
}

#[test]
fn format3_failed_lookahead_marks_span_unsafe() {
    let t = f3(vec![], vec![Some(cov(vec![5]))], vec![Some(cov(vec![9]))], vec![rec(0, 4)]);
    let mut buf = buffer(vec![], vec![5, 7], 0);
    assert!(t.apply(&mut buf).is_none());
    assert_eq!(buf.marks.len(), 1);
    assert_eq!(buf.marks[0].kind, UnsafeMarkKind::Concat);
    assert_eq!(buf.marks[0].start, 0);
    assert_eq!(buf.marks[0].end, 1);
}

#[test]
fn format3_gate_rejects_uncovered_current_glyph() {
    let t = f3(vec![], vec![Some(cov(vec![5]))], vec![], vec![]);
    let mut buf = buffer(vec![], vec![8], 0);
    assert!(t.apply(&mut buf).is_none());
    assert!(buf.marks.is_empty());
}

#[test]
fn records_beyond_input_length_are_dropped() {
    // A record naming input position 3 of a one-position rule is ignored.
    let rule = ChainedRule {
        backtrack: vec![],
        input: vec![],
        lookahead: vec![],
        records: vec![rec(3, 8), rec(0, 1)],
    };
    let t = ChainedContextFormat1 {
        coverage_offset: 0,
        coverage: Some(cov(vec![10])),
        rule_sets: vec![Some(vec![rule])],
    };
    let mut buf = buffer(vec![], vec![10], 0);
    let invs = t.apply(&mut buf).unwrap();
    assert_eq!(invs.len(), 1);
    assert_eq!(invs[0].lookup_index, 1);
}

#[test]
fn format1_rules_decode_from_bytes_and_apply() {
    // Chained context format 1: coverage at 8 listing glyph 10, one rule
    // set at 14 with one rule at 18: no backtrack, input count 2 (one
    // value, glyph 11), no lookahead, one record (position 1, lookup 9).
    let data: Vec<u8> = vec![
        0, 1, // format
        0, 8, // coverage offset
        0, 1, // one rule set
        0, 14, // rule-set offset
        0, 1, 0, 1, 0, 10, // coverage (at 8)
        0, 1, 0, 4, // rule set (at 14): one rule at relative 4
        0, 0, 0, 2, 0, 11, 0, 0, 0, 1, 0, 1, 0, 9, // rule (at 18)
    ];
    let st = Subtable::read(&data, 0, true, 6).unwrap();
    let t = match st {
        Subtable::ChainedContextFormat1(t) => t,
        _ => panic!("wrong variant"),
    };
    let rules = t.rule_sets[0].as_ref().unwrap();
    assert_eq!(rules.len(), 1);
    assert_eq!(rules[0].backtrack, Vec::<u16>::new());
    assert_eq!(rules[0].input, vec![11]);
    assert_eq!(rules[0].lookahead, Vec::<u16>::new());
    assert_eq!(rules[0].records, vec![rec(1, 9)]);
    let mut buf = buffer(vec![], vec![10, 11], 0);
    let invs = t.apply(&mut buf).unwrap();
    assert_eq!(invs.len(), 1);
    assert_eq!(invs[0].sequence_index, 1);
    assert_eq!(invs[0].buffer_index, 1);
    assert_eq!(invs[0].lookup_index, 9);
    let mut miss = buffer(vec![], vec![10, 12], 0);
    assert!(t.apply(&mut miss).is_none());
}

#[test]
fn format2_rules_decode_from_bytes_and_apply() {
    // Chained context format 2: coverage at 14 listing glyph 10; one
    // class map at 20 giving glyph 10 class 0 and glyph 11 class 2,
    // shared by all three phases; one rule set at 30 (selected by input
    // class 0) with one rule at 34 asking for input class 2.
    let data: Vec<u8> = vec![
        0, 2, // format
        0, 14, // coverage offset
        0, 20, // backtrack class map
        0, 20, // input class map
        0, 20, // lookahead class map
        0, 1, // one rule set
        0, 30, // rule-set offset
        0, 1, 0, 1, 0, 10, // coverage (at 14)
        0, 1, 0, 10, 0, 2, 0, 0, 0, 2, // class map (at 20)
        0, 1, 0, 4, // rule set (at 30): one rule at relative 4
        0, 0, 0, 2, 0, 2, 0, 0, 0, 1, 0, 0, 0, 5, // rule (at 34)
    ];
    let st = Subtable::read(&data, 0, true, 6).unwrap();
    let t = match st {
        Subtable::ChainedContextFormat2(t) => t,
        _ => panic!("wrong variant"),
    };
    assert_eq!(t.input_classes.as_ref().unwrap().get(11), 2);
    let mut buf = buffer(vec![], vec![10, 11], 0);
    let invs = t.apply(&mut buf).unwrap();
    assert_eq!(invs.len(), 1);
    assert_eq!(invs[0].buffer_index, 0);
    assert_eq!(invs[0].lookup_index, 5);
    // Glyph 12 has class 0, not the required class 2: no match.
    let mut miss = buffer(vec![], vec![10, 12], 0);
    assert!(t.apply(&mut miss).is_none());
}

#[test]
fn format3_with_no_input_coverages_accepts_lone_glyph_window() {
    // With no declared input coverages the window test degenerates: a
    // one-glyph window passes the cheap check, but real application has
    // no first coverage to gate on and does nothing.
    let t = f3(vec![], vec![], vec![], vec![]);
    let ctx = WouldApplyContext { glyphs: vec![42], zero_context: false };
    assert!(t.would_apply(&ctx));
    let mut buf = buffer(vec![], vec![42], 0);
    assert!(t.apply(&mut buf).is_none());
    assert!(buf.marks.is_empty());
}
