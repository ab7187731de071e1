//! Tests for the lookup cache: lazy and eager population, idempotence,
//! graceful degradation on malformed subtables, and digest aggregation.

use otlookups::lookup_cache::{Gpos, Gsub, LookupCache, LookupState};
use otlookups::matching::{MatchBuffer, UnsafeMarkKind};
use otlookups::subtable::Subtable;

/// A GSUB table with one lookup (type 1) holding one single-substitution
/// subtable covering glyph 5.
fn gsub_one_lookup() -> Vec<u8> {
    vec![
        0, 1, 0, 0, // version
        0, 0, // script list
        0, 0, // feature list
        0, 10, // lookup list at 10
        // lookup list (at 10): one lookup at relative 4 (absolute 14)
        0, 1, 0, 4, //
        // lookup (at 14): type 1, flag 0, one subtable at relative 8
        0, 1, 0, 0, 0, 1, 0, 8, //
        // subtable (at 22): format 1, coverage at relative 6
        0, 1, 0, 6, 0, 0, //
        // coverage (at 28): one glyph, glyph 5
        0, 1, 0, 1, 0, 5,
    ]
}

#[test]
fn lookup_digest_answers_maybe_for_covered_glyph() {
    let gsub = Gsub::new(gsub_one_lookup());
    let mut cache = LookupCache::new();
    let e = cache.get_or_create(&gsub, 0).unwrap();
    assert_eq!(e.state, LookupState::Ready);
    assert!(e.is_subst);
    assert!(!e.is_reversed);
    assert_eq!(e.subtables_count, 1);
    assert!(e.digest.may_have(5));
    let range = e.subtables_range();
    assert_eq!(range, 0..1usize);
    let subs = cache.subtables(&e).unwrap();
    assert_eq!(subs.len(), 1);
    assert_eq!(subs[0].lookup_type, 1);
    assert!(subs[0].digest.may_have(5));
    assert_eq!(subs[0].primary_coverage(&gsub.data, 5), Some(0));
    assert_eq!(subs[0].primary_coverage(&gsub.data, 6), None);
}

#[test]
fn get_or_create_is_idempotent() {
    let gsub = Gsub::new(gsub_one_lookup());
    let mut cache = LookupCache::new();
    let e1 = cache.get_or_create(&gsub, 0).unwrap();
    let lookups_len = cache.lookups.len();
    let subtables_len = cache.subtables.len();
    let e2 = cache.get_or_create(&gsub, 0).unwrap();
    assert_eq!(e1, e2);
    assert_eq!(cache.lookups.len(), lookups_len);
    assert_eq!(cache.subtables.len(), subtables_len);
}

#[test]
fn get_filters_non_ready_entries() {
    let gsub = Gsub::new(gsub_one_lookup());
    let mut cache = LookupCache::new();
    assert!(cache.get(0).is_none());
    // An out-of-range index fails, leaving a terminal error entry that
    // `get` reports as absent and a later call does not retry.
    assert!(cache.get_or_create(&gsub, 3).is_err());
    assert_eq!(cache.lookups[3].state, LookupState::Error);
    let again = cache.get_or_create(&gsub, 3).unwrap();
    assert_eq!(again.state, LookupState::Error);
    assert!(cache.get(3).is_none());
    cache.get_or_create(&gsub, 0).unwrap();
    assert!(cache.get(0).is_some());
}

/// A GSUB table whose single lookup declares three subtables; the second
/// one's bytes are malformed.
fn gsub_one_bad_subtable() -> Vec<u8> {
    vec![
        0, 1, 0, 0, //
        0, 0, //
        0, 0, //
        0, 10, // lookup list at 10
        // lookup list (at 10)
        0, 1, 0, 4, //
        // lookup (at 14): type 1, flag 0, three subtables at 12, 24, 26
        0, 1, 0, 0, 0, 3, 0, 12, 0, 24, 0, 26, //
        // subtable 1 (at 26 = 14 + 12): format 1, coverage at 6 (at 32)
        0, 1, 0, 6, 0, 0, //
        // coverage (at 32): one glyph, glyph 5
        0, 1, 0, 1, 0, 5, //
        // subtable 2 (at 38 = 14 + 24): bad format word
        0, 9, //
        // subtable 3 (at 40 = 14 + 26): format 1, coverage at 6 (at 46)
        0, 1, 0, 6, 0, 0, //
        // coverage (at 46): one glyph, glyph 8
        0, 1, 0, 1, 0, 8,
    ]
}

#[test]
fn malformed_subtable_is_skipped_not_fatal() {
    let gsub = Gsub::new(gsub_one_bad_subtable());
    let mut cache = LookupCache::new();
    let e = cache.get_or_create(&gsub, 0).unwrap();
    assert_eq!(e.state, LookupState::Ready);
    assert_eq!(e.subtables_count, 2);
    assert!(e.digest.may_have(5));
    assert!(e.digest.may_have(8));
    let subs = cache.subtables(&e).unwrap();
    assert_eq!(subs.len(), 2);
    // The survivors are the 1st and 3rd declared subtables, in declared
    // order, with their record fields as classified.
    assert_eq!(subs[0].offset, 26);
    assert_eq!(subs[1].offset, 40);
    assert_eq!(subs[0].lookup_type, 1);
    assert_eq!(subs[1].lookup_type, 1);
    assert!(subs[0].is_subst && subs[1].is_subst);
    assert!(subs[0].digest.may_have(5));
    assert!(!subs[0].digest.may_have(8));
    assert!(subs[1].digest.may_have(8));
}

/// A GSUB table whose single lookup is an extension (type 7) wrapping a
/// single substitution covering glyph 5.
fn gsub_extension_lookup() -> Vec<u8> {
    vec![
        0, 1, 0, 0, //
        0, 0, //
        0, 0, //
        0, 10, //
        0, 1, 0, 4, //
        // lookup (at 14): type 7 (extension), flag 0, one subtable
        0, 7, 0, 0, 0, 1, 0, 8, //
        // wrapper (at 22): format 1, wrapped type 1, extra offset 8
        0, 1, 0, 1, 0, 0, 0, 8, //
        // wrapped subtable (at 30): format 1, coverage at 6
        0, 1, 0, 6, 0, 0, //
        // coverage (at 36): one glyph, glyph 5
        0, 1, 0, 1, 0, 5,
    ]
}

#[test]
fn extension_subtable_is_cached_unwrapped() {
    let gsub = Gsub::new(gsub_extension_lookup());
    let mut cache = LookupCache::new();
    let e = cache.get_or_create(&gsub, 0).unwrap();
    assert_eq!(e.state, LookupState::Ready);
    assert!(!e.is_reversed);
    assert_eq!(e.subtables_count, 1);
    assert!(e.digest.may_have(5));
    let subs = cache.subtables(&e).unwrap();
    // The record holds the resolved type and the unwrapped offset, never
    // the wrapper code.
    assert_eq!(subs[0].lookup_type, 1);
    assert_eq!(subs[0].offset, 30);
    assert!(subs[0].is_subst);
    let st = subs[0].materialize(&gsub.data).unwrap();
    assert!(matches!(st, Subtable::SingleSubst1(_)));
}

#[test]
fn create_all_builds_every_lookup() {
    let gsub = Gsub::new(gsub_one_lookup());
    let mut cache = LookupCache::new();
    cache.create_all(&gsub);
    assert_eq!(cache.lookups.len(), 1);
    assert_eq!(cache.lookups[0].state, LookupState::Ready);
}

#[test]
fn clear_drops_everything() {
    let gsub = Gsub::new(gsub_one_lookup());
    let mut cache = LookupCache::new();
    cache.create_all(&gsub);
    cache.clear();
    assert_eq!(cache.lookups.len(), 0);
    assert_eq!(cache.subtables.len(), 0);
}

/// A GSUB table whose single lookup is a reverse-chained substitution
/// (type 8).
fn gsub_reverse_chain() -> Vec<u8> {
    vec![
        0, 1, 0, 0, //
        0, 0, //
        0, 0, //
        0, 10, //
        0, 1, 0, 4, //
        // lookup (at 14): type 8, flag 1 (right-to-left), one subtable
        0, 8, 0, 1, 0, 1, 0, 8, //
        // subtable (at 22): format 1, coverage at 6
        0, 1, 0, 6, 0, 0, //
        0, 1, 0, 1, 0, 7,
    ]
}

#[test]
fn reverse_chain_lookup_is_reversed_and_rtl() {
    let gsub = Gsub::new(gsub_reverse_chain());
    let mut cache = LookupCache::new();
    let e = cache.get_or_create(&gsub, 0).unwrap();
    assert_eq!(e.state, LookupState::Ready);
    assert!(e.is_reversed);
    assert!(e.is_rtl);
    assert_eq!(e.props, 1);
    assert!(e.digest.may_have(7));
}

/// A GSUB table whose single lookup uses a mark-filtering set.
fn gsub_mark_filtering() -> Vec<u8> {
    vec![
        0, 1, 0, 0, //
        0, 0, //
        0, 0, //
        0, 10, //
        0, 1, 0, 4, //
        // lookup (at 14): type 1, flag 0x0010, one subtable at 10,
        // mark-filtering set 2 after the offset array
        0, 1, 0, 0x10, 0, 1, 0, 10, 0, 2, //
        // subtable (at 24): format 1, coverage at 6
        0, 1, 0, 6, 0, 0, //
        0, 1, 0, 1, 0, 5,
    ]
}

#[test]
fn mark_filtering_set_lands_in_upper_props() {
    let gsub = Gsub::new(gsub_mark_filtering());
    let mut cache = LookupCache::new();
    let e = cache.get_or_create(&gsub, 0).unwrap();
    assert_eq!(e.state, LookupState::Ready);
    assert_eq!(e.props, 0x0002_0010);
    assert!(!e.is_rtl);
}

/// A GPOS table with one single-positioning lookup covering glyph 9.
fn gpos_one_lookup() -> Vec<u8> {
    vec![
        0, 1, 0, 0, //
        0, 0, //
        0, 0, //
        0, 10, //
        0, 1, 0, 4, //
        // lookup (at 14): type 1 (single pos), flag 0
        0, 1, 0, 0, 0, 1, 0, 8, //
        // subtable (at 22): format 1, coverage at 6
        0, 1, 0, 6, 0, 0, //
        0, 1, 0, 1, 0, 9,
    ]
}

#[test]
fn gpos_lookup_is_not_substitution() {
    let gpos = Gpos::new(gpos_one_lookup());
    let mut cache = LookupCache::new();
    let e = cache.get_or_create(&gpos, 0).unwrap();
    assert_eq!(e.state, LookupState::Ready);
    assert!(!e.is_subst);
    assert!(!e.is_reversed);
    assert!(e.digest.may_have(9));
    let subs = cache.subtables(&e).unwrap();
    assert!(!subs[0].is_subst);
}

#[test]
fn materialize_round_trips_subtable() {
    let gsub = Gsub::new(gsub_one_lookup());
    let mut cache = LookupCache::new();
    let e = cache.get_or_create(&gsub, 0).unwrap();
    let subs = cache.subtables(&e).unwrap();
    let st = subs[0].materialize(&gsub.data).unwrap();
    let (cov, off) = st.coverage_and_offset().unwrap();
    assert_eq!(off, subs[0].coverage_offset);
    assert!(cov.covers(5));
}

#[test]
fn empty_table_has_no_lookups() {
    let gsub = Gsub::new(vec![0, 1]);
    let mut cache = LookupCache::new();
    cache.create_all(&gsub);
    assert_eq!(cache.lookups.len(), 0);
    assert!(cache.get_or_create(&gsub, 0).is_err());
}

/// A GSUB table whose single lookup is a chained context (type 6) with a
/// format-3 subtable: no backtrack, one input coverage listing glyph 5,
/// no lookahead, one nested-lookup record naming lookup 2 at position 0.
fn gsub_chained_f3() -> Vec<u8> {
    vec![
        0, 1, 0, 0, //
        0, 0, //
        0, 0, //
        0, 10, //
        0, 1, 0, 4, //
        // lookup (at 14): type 6, flag 0, one subtable at relative 8
        0, 6, 0, 0, 0, 1, 0, 8, //
        // subtable (at 22): format 3, 0 backtrack, 1 input coverage at
        // relative 16, 0 lookahead, 1 record (position 0, lookup 2)
        0, 3, 0, 0, 0, 1, 0, 16, 0, 0, 0, 1, 0, 0, 0, 2, //
        // coverage (at 38): one glyph, glyph 5
        0, 1, 0, 1, 0, 5,
    ]
}

#[test]
fn chained_context_from_bytes_applies() {
    let gsub = Gsub::new(gsub_chained_f3());
    let mut cache = LookupCache::new();
    let e = cache.get_or_create(&gsub, 0).unwrap();
    assert_eq!(e.state, LookupState::Ready);
    assert_eq!(e.subtables_count, 1);
    assert!(e.digest.may_have(5));
    let subs = cache.subtables(&e).unwrap();
    assert_eq!(subs[0].lookup_type, 6);
    assert_eq!(subs[0].coverage_offset, 16);
    let st = subs[0].materialize(&gsub.data).unwrap();
    let t = match st {
        Subtable::ChainedContextFormat3(t) => t,
        _ => panic!("wrong variant"),
    };
    assert_eq!(t.input_coverages.len(), 1);
    assert_eq!(t.records.len(), 1);
    let mut buf = MatchBuffer { out: Vec::new(), glyphs: vec![5], idx: 0, marks: Vec::new() };
    let invs = t.apply(&mut buf).unwrap();
    assert_eq!(invs.len(), 1);
    assert_eq!(invs[0].buffer_index, 0);
    assert_eq!(invs[0].lookup_index, 2);
    assert_eq!(buf.marks.len(), 1);
    assert_eq!(buf.marks[0].kind, UnsafeMarkKind::BreakFromOutbuffer);
}
