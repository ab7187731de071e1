//! Tests for the byte-level decoders and the glyph-set digest.

use otlookups::classdef::{parse_class_def, ClassDef};
use otlookups::coverage::{parse_coverage, CoverageTable};
use otlookups::digest::GlyphDigest;
use otlookups::raw::ReadError;
use otlookups::subtable::Subtable;

#[test]
fn digest_single_glyph() {
    let mut d = GlyphDigest::new();
    d.add(5);
    assert!(d.may_have(5));
    assert!(!d.may_have(6));
}

#[test]
fn digest_range_no_false_negative() {
    let mut d = GlyphDigest::new();
    d.add_range(10, 300);
    assert!(d.may_have(10));
    assert!(d.may_have(155));
    assert!(d.may_have(300));
    assert!(!d.may_have(4000));
}

#[test]
fn digest_empty_range_adds_nothing() {
    let mut d = GlyphDigest::new();
    d.add_range(20, 10);
    assert!(!d.may_have(15));
}

#[test]
fn coverage_format1_parse_and_get() {
    let data: Vec<u8> = vec![0, 1, 0, 2, 0, 5, 0, 9];
    let cov = parse_coverage(&data, 0).unwrap();
    assert!(cov.covers(5));
    assert!(cov.covers(9));
    assert!(!cov.covers(6));
    assert_eq!(cov.get(5), Some(0));
    assert_eq!(cov.get(9), Some(1));
    assert_eq!(cov.get(6), None);
}

#[test]
fn coverage_format2_parse_and_get() {
    let data: Vec<u8> = vec![0, 2, 0, 1, 0, 10, 0, 20, 0, 3];
    let cov = parse_coverage(&data, 0).unwrap();
    assert!(cov.covers(10));
    assert!(cov.covers(20));
    assert!(!cov.covers(21));
    assert_eq!(cov.get(15), Some(8));
    assert_eq!(cov.get(9), None);
}

#[test]
fn coverage_bad_format_is_rejected() {
    let data: Vec<u8> = vec![0, 9, 0, 0];
    assert_eq!(parse_coverage(&data, 0), Err(ReadError::MalformedData));
}

#[test]
fn coverage_truncated_array_is_rejected() {
    let data: Vec<u8> = vec![0, 1, 0, 4, 0, 5];
    assert_eq!(parse_coverage(&data, 0), Err(ReadError::OutOfBounds));
}

#[test]
fn class_def_format1() {
    let data: Vec<u8> = vec![0, 1, 0, 10, 0, 2, 0, 7, 0, 8];
    let cd = parse_class_def(&data, 0).unwrap();
    assert_eq!(cd.get(10), 7);
    assert_eq!(cd.get(11), 8);
    assert_eq!(cd.get(12), 0);
    assert_eq!(cd.get(9), 0);
}

#[test]
fn class_def_format2() {
    let data: Vec<u8> = vec![0, 2, 0, 1, 0, 5, 0, 6, 0, 4];
    let cd = parse_class_def(&data, 0).unwrap();
    assert_eq!(cd.get(5), 4);
    assert_eq!(cd.get(6), 4);
    assert_eq!(cd.get(7), 0);
}

/// A single-substitution format-1 subtable at offset 0, its coverage at
/// offset 6 listing glyph 5.
fn single_subst_bytes() -> Vec<u8> {
    vec![
        0, 1, // format 1
        0, 6, // coverage offset
        0, 0, // delta (not read by the classifier)
        0, 1, 0, 1, 0, 5, // coverage: format 1, one glyph, glyph 5
    ]
}

#[test]
fn classify_single_subst() {
    let data = single_subst_bytes();
    let st = Subtable::read(&data, 0, true, 1).unwrap();
    match &st {
        Subtable::SingleSubst1(h) => {
            assert_eq!(h.coverage_offset, 6);
            assert!(h.coverage.as_ref().unwrap().covers(5));
        },
        _ => panic!("wrong variant"),
    }
    let (cov, off) = st.coverage_and_offset().unwrap();
    assert_eq!(off, 6);
    assert!(cov.covers(5));
}

#[test]
fn classify_extension_matches_direct() {
    // An extension wrapper at 0 (wrapped type 1, extra offset 8) and the
    // wrapped single substitution at 8.
    let mut data: Vec<u8> = vec![
        0, 1, // wrapper format 1
        0, 1, // wrapped lookup type
        0, 0, 0, 8, // extension offset
    ];
    data.extend(single_subst_bytes());
    let via_ext = Subtable::read(&data, 0, true, 7).unwrap();
    let direct = Subtable::read(&data, 8, true, 1).unwrap();
    assert_eq!(via_ext, direct);
}

#[test]
fn classify_double_extension_is_malformed() {
    // A wrapper whose wrapped type is again the extension code.
    let data: Vec<u8> = vec![0, 1, 0, 7, 0, 0, 0, 8, 0, 1, 0, 6, 0, 0];
    assert!(Subtable::read(&data, 0, true, 7).is_err());
}

#[test]
fn classify_unknown_type_is_malformed() {
    let data = single_subst_bytes();
    assert!(Subtable::read(&data, 0, true, 9).is_err());
}

#[test]
fn classify_chained_context_format1() {
    // Chained context format 1 with one (null) rule set.
    let data: Vec<u8> = vec![
        0, 1, // format
        0, 8, // coverage offset
        0, 1, // one rule set
        0, 0, // null rule-set offset
        0, 1, 0, 1, 0, 42, // coverage listing glyph 42
    ];
    let st = Subtable::read(&data, 0, true, 6).unwrap();
    match &st {
        Subtable::ChainedContextFormat1(t) => {
            assert!(t.coverage.as_ref().unwrap().covers(42));
            assert_eq!(t.rule_sets.len(), 1);
            assert!(t.rule_sets[0].is_none());
        },
        _ => panic!("wrong variant"),
    }
}

#[test]
fn class_def_built_by_hand() {
    let cd = ClassDef::Format1 { start_glyph: 3, classes: vec![9] };
    assert_eq!(cd.get(3), 9);
    assert_eq!(cd.get(4), 0);
}

#[test]
fn coverage_format2_overlapping_ranges_take_first() {
    let data: Vec<u8> = vec![0, 2, 0, 2, 0, 10, 0, 20, 0, 1, 0, 15, 0, 25, 0, 100];
    let cov = parse_coverage(&data, 0).unwrap();
    assert_eq!(cov.get(15), Some(6));
    assert_eq!(cov.get(25), Some(110));
    match cov {
        CoverageTable::Format2 { ranges } => assert_eq!(ranges.len(), 2),
        _ => panic!("wrong format"),
    }
}
