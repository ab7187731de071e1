//! Subtable classification: decoding raw bytes into one of the concrete
//! rule shapes, given the table kind (substitution or positioning) and the
//! numeric lookup type, with one level of extension indirection resolved.

use vstd::prelude::*;

use crate::contextual::{
    chained_f1_ok, chained_f2_ok, chained_f3_ok, f3_bt_count, f3_in_count, f3_in_pos, f3_la_count,
    f3_la_pos, f3_rec_count, f3_rec_pos, opt_cd_view, opt_cov_view, parse_chained_f1,
    parse_chained_f2, parse_chained_f3, parse_coverage_at, rule_set_slot_decodes,
    ChainedContextFormat1, ChainedContextFormat2, ChainedContextFormat3,
};
use crate::matching::SequenceLookupRecord;
use crate::coverage::{spec_parse_coverage, CoverageTable, CoverageView};
use crate::raw::{read_u16, read_u32, u16_at, u32_at, ReadError};

verus! {

/// The part of a subtable header most rule shapes share: a format word at
/// offset 0 and the primary coverage offset at offset 2.
#[derive(Clone, Debug, PartialEq, Eq)]
pub struct CoverageHeader {
    /// Byte offset of the primary coverage from the subtable start.
    pub coverage_offset: u16,
    /// Primary coverage; `None` where its bytes are malformed.
    pub coverage: Option<CoverageTable>,
}

/// Header of a plain sequence-context format 3: a list of coverage
/// offsets, the first of which is the primary coverage.
#[derive(Clone, Debug, PartialEq, Eq)]
pub struct ContextFormat3Header {
    /// Number of coverage offsets declared.
    pub coverage_count: u16,
    /// The first coverage offset; 0 where there is none.
    pub first_coverage_offset: u16,
    /// The first coverage table; `None` where absent or malformed.
    pub coverage: Option<CoverageTable>,
}

/// Whether a simple header at `off` has the expected format word and its
/// fixed fields in bounds.
pub open spec fn simple_header_ok(d: Seq<u8>, off: int, expect: u16) -> bool {
    off >= 0 && off + 4 <= d.len() && u16_at(d, off) == expect
}

/// The decoded fields of a simple header relate to the bytes at `off`.
pub open spec fn simple_cov_ok(d: Seq<u8>, off: int, h: CoverageHeader) -> bool {
    h.coverage_offset == u16_at(d, off + 2) && opt_cov_view(h.coverage) == spec_parse_coverage(
        d,
        off + h.coverage_offset,
    )
}

/// Whether a plain context format-3 header at `off` is well formed.
pub open spec fn ctx3_ok(d: Seq<u8>, off: int) -> bool {
    off >= 0 && off + 6 <= d.len() && u16_at(d, off) == 3 && off + 6 + 2 * (u16_at(d, off + 2)
        as int) <= d.len()
}

/// The decoded fields of a plain context format-3 header relate to the
/// bytes at `off`.
pub open spec fn ctx3_fields_ok(d: Seq<u8>, off: int, h: ContextFormat3Header) -> bool {
    &&& h.coverage_count == u16_at(d, off + 2)
    &&& h.first_coverage_offset == if u16_at(d, off + 2) > 0 {
        u16_at(d, off + 6)
    } else {
        0
    }
    &&& opt_cov_view(h.coverage) == if u16_at(d, off + 2) > 0 {
        spec_parse_coverage(d, off + u16_at(d, off + 6))
    } else {
        None::<CoverageView>
    }
}

/// The extension wrapper at `off`: its wrapped lookup type and extra
/// offset, or `None` where the bytes do not form one.
pub open spec fn spec_parse_extension(d: Seq<u8>, off: int) -> Option<(u16, u32)> {
    if off >= 0 && off + 8 <= d.len() && u16_at(d, off) == 1 {
        Some((u16_at(d, off + 2), u32_at(d, off + 4)))
    } else {
        None
    }
}

/// Whether `(is_subst, t)` is the extension indirection code.
pub open spec fn spec_is_ext(is_subst: bool, t: u16) -> bool {
    (is_subst && t == 7) || (!is_subst && t == 9)
}

/// Where classification happens after resolving at most one level of
/// extension indirection: the identity for a direct type; for the
/// extension code, the wrapped type at the adjusted offset, unless the
/// wrapper is malformed or wraps another wrapper.
pub open spec fn spec_resolve(d: Seq<u8>, off: int, is_subst: bool, t: u16) -> Option<
    (int, u16),
> {
    if !spec_is_ext(is_subst, t) {
        Some((off, t))
    } else {
        match spec_parse_extension(d, off) {
            Some((t2, o2)) => if spec_is_ext(is_subst, t2) {
                None
            } else {
                Some((off + o2, t2))
            },
            None => None,
        }
    }
}

/// All concrete subtable shapes a lookup can hold.
#[derive(Clone, Debug, PartialEq, Eq)]
pub enum Subtable {
    SingleSubst1(CoverageHeader),
    SingleSubst2(CoverageHeader),
    MultipleSubst1(CoverageHeader),
    AlternateSubst1(CoverageHeader),
    LigatureSubst1(CoverageHeader),
    SinglePos1(CoverageHeader),
    SinglePos2(CoverageHeader),
    PairPos1(CoverageHeader),
    PairPos2(CoverageHeader),
    CursivePos1(CoverageHeader),
    MarkBasePos1(CoverageHeader),
    MarkMarkPos1(CoverageHeader),
    MarkLigPos1(CoverageHeader),
    ContextFormat1(CoverageHeader),
    ContextFormat2(CoverageHeader),
    ContextFormat3(ContextFormat3Header),
    ChainedContextFormat1(ChainedContextFormat1),
    ChainedContextFormat2(ChainedContextFormat2),
    ChainedContextFormat3(ChainedContextFormat3),
    ReverseChainContext(CoverageHeader),
}

/// Whether a direct (non-extension) classification at `off` succeeds:
/// the format word is one the `(kind, type)` pair allows and the header
/// it names is well formed.
pub open spec fn direct_ok(d: Seq<u8>, off: int, s: bool, t: u16) -> bool {
    if off < 0 || off + 2 > d.len() {
        false
    } else {
        let fmt = u16_at(d, off);
        if (s && t == 1) || (!s && t == 1) || (!s && t == 2) {
            (fmt == 1 || fmt == 2) && off + 4 <= d.len()
        } else if (s && (t == 2 || t == 3 || t == 4)) || (!s && (t == 3 || t == 4 || t == 5 || t
            == 6)) || (s && t == 8) {
            fmt == 1 && off + 4 <= d.len()
        } else if (s && t == 5) || (!s && t == 7) {
            if fmt == 1 || fmt == 2 {
                off + 4 <= d.len()
            } else if fmt == 3 {
                ctx3_ok(d, off)
            } else {
                false
            }
        } else if (s && t == 6) || (!s && t == 8) {
            if fmt == 1 {
                chained_f1_ok(d, off)
            } else if fmt == 2 {
                chained_f2_ok(d, off)
            } else if fmt == 3 {
                chained_f3_ok(d, off)
            } else {
                false
            }
        } else {
            false
        }
    }
}

/// The produced variant corresponds to the `(kind, type)` pair and the
/// format word read at the resolved offset.
pub open spec fn tag_matches(st: Subtable, s: bool, t: u16, fmt: u16) -> bool {
    match st {
        Subtable::SingleSubst1(_) => s && t == 1 && fmt == 1,
        Subtable::SingleSubst2(_) => s && t == 1 && fmt == 2,
        Subtable::MultipleSubst1(_) => s && t == 2 && fmt == 1,
        Subtable::AlternateSubst1(_) => s && t == 3 && fmt == 1,
        Subtable::LigatureSubst1(_) => s && t == 4 && fmt == 1,
        Subtable::SinglePos1(_) => !s && t == 1 && fmt == 1,
        Subtable::SinglePos2(_) => !s && t == 1 && fmt == 2,
        Subtable::PairPos1(_) => !s && t == 2 && fmt == 1,
        Subtable::PairPos2(_) => !s && t == 2 && fmt == 2,
        Subtable::CursivePos1(_) => !s && t == 3 && fmt == 1,
        Subtable::MarkBasePos1(_) => !s && t == 4 && fmt == 1,
        Subtable::MarkLigPos1(_) => !s && t == 5 && fmt == 1,
        Subtable::MarkMarkPos1(_) => !s && t == 6 && fmt == 1,
        Subtable::ContextFormat1(_) => ((s && t == 5) || (!s && t == 7)) && fmt == 1,
        Subtable::ContextFormat2(_) => ((s && t == 5) || (!s && t == 7)) && fmt == 2,
        Subtable::ContextFormat3(_) => ((s && t == 5) || (!s && t == 7)) && fmt == 3,
        Subtable::ChainedContextFormat1(_) => ((s && t == 6) || (!s && t == 8)) && fmt == 1,
        Subtable::ChainedContextFormat2(_) => ((s && t == 6) || (!s && t == 8)) && fmt == 2,
        Subtable::ChainedContextFormat3(_) => ((s && t == 6) || (!s && t == 8)) && fmt == 3,
        Subtable::ReverseChainContext(_) => s && t == 8 && fmt == 1,
    }
}

/// The decoded contents relate to the bytes at the resolved offset.
pub open spec fn cov_fields_ok(d: Seq<u8>, off: int, st: Subtable) -> bool {
    match st {
        Subtable::SingleSubst1(h) => simple_cov_ok(d, off, h),
        Subtable::SingleSubst2(h) => simple_cov_ok(d, off, h),
        Subtable::MultipleSubst1(h) => simple_cov_ok(d, off, h),
        Subtable::AlternateSubst1(h) => simple_cov_ok(d, off, h),
        Subtable::LigatureSubst1(h) => simple_cov_ok(d, off, h),
        Subtable::SinglePos1(h) => simple_cov_ok(d, off, h),
        Subtable::SinglePos2(h) => simple_cov_ok(d, off, h),
        Subtable::PairPos1(h) => simple_cov_ok(d, off, h),
        Subtable::PairPos2(h) => simple_cov_ok(d, off, h),
        Subtable::CursivePos1(h) => simple_cov_ok(d, off, h),
        Subtable::MarkBasePos1(h) => simple_cov_ok(d, off, h),
        Subtable::MarkMarkPos1(h) => simple_cov_ok(d, off, h),
        Subtable::MarkLigPos1(h) => simple_cov_ok(d, off, h),
        Subtable::ContextFormat1(h) => simple_cov_ok(d, off, h),
        Subtable::ContextFormat2(h) => simple_cov_ok(d, off, h),
        Subtable::ContextFormat3(h) => ctx3_fields_ok(d, off, h),
        Subtable::ChainedContextFormat1(t) => {
            &&& t.coverage_offset == u16_at(d, off + 2)
            &&& opt_cov_view(t.coverage) == spec_parse_coverage(d, off + t.coverage_offset)
            &&& t.rule_sets@.len() == u16_at(d, off + 4) as int
            &&& forall|i: int|
                0 <= i < t.rule_sets@.len() ==> rule_set_slot_decodes(
                    d,
                    off,
                    u16_at(d, off + 6 + 2 * i),
                    #[trigger] t.rule_sets@[i],
                )
        },
        Subtable::ChainedContextFormat2(t) => {
            &&& t.coverage_offset == u16_at(d, off + 2)
            &&& opt_cov_view(t.coverage) == spec_parse_coverage(d, off + t.coverage_offset)
            &&& opt_cd_view(t.backtrack_classes) == crate::classdef::spec_parse_class_def(
                d,
                off + u16_at(d, off + 4),
            )
            &&& opt_cd_view(t.input_classes) == crate::classdef::spec_parse_class_def(
                d,
                off + u16_at(d, off + 6),
            )
            &&& opt_cd_view(t.lookahead_classes) == crate::classdef::spec_parse_class_def(
                d,
                off + u16_at(d, off + 8),
            )
            &&& t.rule_sets@.len() == u16_at(d, off + 10) as int
            &&& forall|i: int|
                0 <= i < t.rule_sets@.len() ==> rule_set_slot_decodes(
                    d,
                    off,
                    u16_at(d, off + 12 + 2 * i),
                    #[trigger] t.rule_sets@[i],
                )
        },
        Subtable::ChainedContextFormat3(t) => {
            &&& t.backtrack_coverages@.len() == f3_bt_count(d, off)
            &&& forall|i: int|
                0 <= i < f3_bt_count(d, off) ==> opt_cov_view(#[trigger] t.backtrack_coverages@[i])
                    == spec_parse_coverage(d, off + u16_at(d, off + 4 + 2 * i))
            &&& t.input_coverages@.len() == f3_in_count(d, off)
            &&& forall|i: int|
                0 <= i < f3_in_count(d, off) ==> opt_cov_view(#[trigger] t.input_coverages@[i])
                    == spec_parse_coverage(d, off + u16_at(d, f3_in_pos(d, off) + 2 + 2 * i))
            &&& t.lookahead_coverages@.len() == f3_la_count(d, off)
            &&& forall|i: int|
                0 <= i < f3_la_count(d, off) ==> opt_cov_view(#[trigger] t.lookahead_coverages@[i])
                    == spec_parse_coverage(d, off + u16_at(d, f3_la_pos(d, off) + 2 + 2 * i))
            &&& t.records@.len() == f3_rec_count(d, off)
            &&& forall|i: int|
                0 <= i < f3_rec_count(d, off) ==> #[trigger] t.records@[i]
                    == (SequenceLookupRecord {
                    sequence_index: u16_at(d, f3_rec_pos(d, off) + 2 + 4 * i),
                    lookup_list_index: u16_at(d, f3_rec_pos(d, off) + 2 + 4 * i + 2),
                })
            &&& t.first_input_coverage_offset == if f3_in_count(d, off) > 0 {
                u16_at(d, f3_in_pos(d, off) + 2)
            } else {
                0
            }
        },
        Subtable::ReverseChainContext(h) => simple_cov_ok(d, off, h),
    }
}

/// Classifying an extension wrapper lands exactly where classifying the
/// wrapped subtable directly lands, so `read`'s contract pins the same
/// format word, the same variant and the same decoded contents for both.
pub proof fn lemma_extension_transparent(
    d: Seq<u8>,
    off: int,
    is_subst: bool,
    t: u16,
    t2: u16,
    o2: u32,
)
    requires
        spec_is_ext(is_subst, t),
        !spec_is_ext(is_subst, t2),
        spec_parse_extension(d, off) == Some((t2, o2)),
    ensures
        spec_resolve(d, off, is_subst, t) == Some((off + o2, t2)),
        spec_resolve(d, off + o2, is_subst, t2) == Some((off + o2, t2)),
{
}

/// Decodes a simple header at `offset` whose format word must be
/// `expect`.
fn read_cov_header(data: &[u8], offset: usize, expect: u16) -> (r: Result<
    CoverageHeader,
    ReadError,
>)
    ensures
        r.is_ok() == simple_header_ok(data@, offset as int, expect),
        r matches Ok(h) ==> simple_cov_ok(data@, offset as int, h),
{
    let dlen = data.len();
    if dlen < 4 || offset > dlen - 4 {
        return Err(ReadError::OutOfBounds);
    }
    let fmt = read_u16(data, offset);
    if fmt != expect {
        return Err(ReadError::MalformedData);
    }
    let coverage_offset = read_u16(data, offset + 2);
    let coverage = parse_coverage_at(data, offset, coverage_offset);
    Ok(CoverageHeader { coverage_offset, coverage })
}

/// Decodes a plain sequence-context format-3 header at `offset`.
fn read_ctx3_header(data: &[u8], offset: usize) -> (r: Result<ContextFormat3Header, ReadError>)
    ensures
        r.is_ok() == ctx3_ok(data@, offset as int),
        r matches Ok(h) ==> ctx3_fields_ok(data@, offset as int, h),
{
    let dlen = data.len();
    if dlen < 6 || offset > dlen - 6 {
        return Err(ReadError::OutOfBounds);
    }
    let fmt = read_u16(data, offset);
    if fmt != 3 {
        return Err(ReadError::MalformedData);
    }
    let n = read_u16(data, offset + 2);
    if (n as usize) > (dlen - offset - 6) / 2 {
        return Err(ReadError::OutOfBounds);
    }
    if n > 0 {
        let first = read_u16(data, offset + 6);
        let coverage = parse_coverage_at(data, offset, first);
        Ok(ContextFormat3Header { coverage_count: n, first_coverage_offset: first, coverage })
    } else {
        Ok(ContextFormat3Header { coverage_count: 0, first_coverage_offset: 0, coverage: None })
    }
}

/// Decodes the extension wrapper at `offset`.
pub fn parse_extension(data: &[u8], offset: usize) -> (r: Result<(u16, u32), ReadError>)
    ensures
        match r {
            Ok(p) => spec_parse_extension(data@, offset as int) == Some(p),
            Err(_) => spec_parse_extension(data@, offset as int) is None,
        },
{
    let dlen = data.len();
    if dlen < 8 || offset > dlen - 8 {
        return Err(ReadError::OutOfBounds);
    }
    let fmt = read_u16(data, offset);
    if fmt != 1 {
        return Err(ReadError::MalformedData);
    }
    Ok((read_u16(data, offset + 2), read_u32(data, offset + 4)))
}

impl Subtable {
    /// Classifies the bytes at `offset` directly, with no extension
    /// resolution.
    fn read_direct(data: &[u8], offset: usize, is_subst: bool, lookup_type: u16) -> (r: Result<
        Subtable,
        ReadError,
    >)
        ensures
            r.is_ok() == direct_ok(data@, offset as int, is_subst, lookup_type),
            r matches Ok(st) ==> tag_matches(
                st,
                is_subst,
                lookup_type,
                u16_at(data@, offset as int),
            ) && cov_fields_ok(data@, offset as int, st),
    {
        let dlen = data.len();
        if dlen < 2 || offset > dlen - 2 {
            return Err(ReadError::OutOfBounds);
        }
        let fmt = read_u16(data, offset);
        match (is_subst, lookup_type) {
            (true, 1u16) => {
                if fmt == 1 {
                    Ok(Subtable::SingleSubst1(read_cov_header(data, offset, 1)?))
                } else if fmt == 2 {
                    Ok(Subtable::SingleSubst2(read_cov_header(data, offset, 2)?))
                } else {
                    Err(ReadError::MalformedData)
                }
            },
            (false, 1u16) => {
                if fmt == 1 {
                    Ok(Subtable::SinglePos1(read_cov_header(data, offset, 1)?))
                } else if fmt == 2 {
                    Ok(Subtable::SinglePos2(read_cov_header(data, offset, 2)?))
                } else {
                    Err(ReadError::MalformedData)
                }
            },
            (false, 2u16) => {
                if fmt == 1 {
                    Ok(Subtable::PairPos1(read_cov_header(data, offset, 1)?))
                } else if fmt == 2 {
                    Ok(Subtable::PairPos2(read_cov_header(data, offset, 2)?))
                } else {
                    Err(ReadError::MalformedData)
                }
            },
            (true, 2u16) => Ok(Subtable::MultipleSubst1(read_cov_header(data, offset, 1)?)),
            (true, 3u16) => Ok(Subtable::AlternateSubst1(read_cov_header(data, offset, 1)?)),
            (true, 4u16) => Ok(Subtable::LigatureSubst1(read_cov_header(data, offset, 1)?)),
            (false, 3u16) => Ok(Subtable::CursivePos1(read_cov_header(data, offset, 1)?)),
            (false, 4u16) => Ok(Subtable::MarkBasePos1(read_cov_header(data, offset, 1)?)),
            (false, 5u16) => Ok(Subtable::MarkLigPos1(read_cov_header(data, offset, 1)?)),
            (false, 6u16) => Ok(Subtable::MarkMarkPos1(read_cov_header(data, offset, 1)?)),
            (true, 8u16) => Ok(Subtable::ReverseChainContext(read_cov_header(data, offset, 1)?)),
            (true, 5u16) | (false, 7u16) => {
                if fmt == 1 {
                    Ok(Subtable::ContextFormat1(read_cov_header(data, offset, 1)?))
                } else if fmt == 2 {
                    Ok(Subtable::ContextFormat2(read_cov_header(data, offset, 2)?))
                } else if fmt == 3 {
                    Ok(Subtable::ContextFormat3(read_ctx3_header(data, offset)?))
                } else {
                    Err(ReadError::MalformedData)
                }
            },
            (true, 6u16) | (false, 8u16) => {
                if fmt == 1 {
                    Ok(Subtable::ChainedContextFormat1(parse_chained_f1(data, offset)?))
                } else if fmt == 2 {
                    Ok(Subtable::ChainedContextFormat2(parse_chained_f2(data, offset)?))
                } else if fmt == 3 {
                    Ok(Subtable::ChainedContextFormat3(parse_chained_f3(data, offset)?))
                } else {
                    Err(ReadError::MalformedData)
                }
            },
            _ => Err(ReadError::MalformedData),
        }
    }

    /// Classifies the bytes at `offset` as the subtable of a lookup of
    /// the given kind and numeric type, resolving extension indirection
    /// exactly one level: a wrapper wrapping another wrapper is malformed
    /// data.
    pub fn read(data: &[u8], offset: usize, is_subst: bool, lookup_type: u16) -> (r: Result<
        Subtable,
        ReadError,
    >)
        ensures
            r.is_ok() == (spec_resolve(data@, offset as int, is_subst, lookup_type) matches Some(
                p,
            ) && direct_ok(data@, p.0, is_subst, p.1)),
            r matches Ok(st) ==> spec_resolve(
                data@,
                offset as int,
                is_subst,
                lookup_type,
            ) matches Some(p) && tag_matches(st, is_subst, p.1, u16_at(data@, p.0))
                && cov_fields_ok(data@, p.0, st),
    {
        let dlen = data.len();
        let is_ext = (is_subst && lookup_type == 7) || (!is_subst && lookup_type == 9);
        if is_ext {
            let (t2, o2) = parse_extension(data, offset)?;
            if (is_subst && t2 == 7) || (!is_subst && t2 == 9) {
                return Err(ReadError::MalformedData);
            }
            if (o2 as usize) > usize::MAX - offset {
                return Err(ReadError::OutOfBounds);
            }
            Self::read_direct(data, offset + o2 as usize, is_subst, t2)
        } else {
            Self::read_direct(data, offset, is_subst, lookup_type)
        }
    }
}


/// The primary coverage a classified subtable exposes, with its byte
/// offset from the subtable start; `None` where the subtable has no
/// usable primary coverage.
pub open spec fn spec_coverage_and_offset(st: Subtable) -> Option<(CoverageView, u16)> {
    match st {
        Subtable::SingleSubst1(h) => cov_header_pair(h),
        Subtable::SingleSubst2(h) => cov_header_pair(h),
        Subtable::MultipleSubst1(h) => cov_header_pair(h),
        Subtable::AlternateSubst1(h) => cov_header_pair(h),
        Subtable::LigatureSubst1(h) => cov_header_pair(h),
        Subtable::SinglePos1(h) => cov_header_pair(h),
        Subtable::SinglePos2(h) => cov_header_pair(h),
        Subtable::PairPos1(h) => cov_header_pair(h),
        Subtable::PairPos2(h) => cov_header_pair(h),
        Subtable::CursivePos1(h) => cov_header_pair(h),
        Subtable::MarkBasePos1(h) => cov_header_pair(h),
        Subtable::MarkMarkPos1(h) => cov_header_pair(h),
        Subtable::MarkLigPos1(h) => cov_header_pair(h),
        Subtable::ContextFormat1(h) => cov_header_pair(h),
        Subtable::ContextFormat2(h) => cov_header_pair(h),
        Subtable::ContextFormat3(h) => match h.coverage {
            Some(c) => Some((c@, h.first_coverage_offset)),
            None => None,
        },
        Subtable::ChainedContextFormat1(t) => match t.coverage {
            Some(c) => Some((c@, t.coverage_offset)),
            None => None,
        },
        Subtable::ChainedContextFormat2(t) => match t.coverage {
            Some(c) => Some((c@, t.coverage_offset)),
            None => None,
        },
        Subtable::ChainedContextFormat3(t) => if t.input_coverages@.len() >= 1 {
            match t.input_coverages@[0] {
                Some(c) => Some((c@, t.first_input_coverage_offset)),
                None => None,
            }
        } else {
            None
        },
        Subtable::ReverseChainContext(h) => cov_header_pair(h),
    }
}

/// The coverage a simple header exposes.
pub open spec fn cov_header_pair(h: CoverageHeader) -> Option<(CoverageView, u16)> {
    match h.coverage {
        Some(c) => Some((c@, h.coverage_offset)),
        None => None,
    }
}

impl Subtable {
    /// The primary coverage table of the subtable and its byte offset
    /// from the subtable start.
    pub fn coverage_and_offset(&self) -> (r: Result<(&CoverageTable, u16), ReadError>)
        ensures
            r.is_ok() == (spec_coverage_and_offset(*self) is Some),
            r matches Ok(p) ==> spec_coverage_and_offset(*self) == Some((p.0@, p.1)),
    {
        match self {
            Subtable::SingleSubst1(h) => cov_header_get(h),
            Subtable::SingleSubst2(h) => cov_header_get(h),
            Subtable::MultipleSubst1(h) => cov_header_get(h),
            Subtable::AlternateSubst1(h) => cov_header_get(h),
            Subtable::LigatureSubst1(h) => cov_header_get(h),
            Subtable::SinglePos1(h) => cov_header_get(h),
            Subtable::SinglePos2(h) => cov_header_get(h),
            Subtable::PairPos1(h) => cov_header_get(h),
            Subtable::PairPos2(h) => cov_header_get(h),
            Subtable::CursivePos1(h) => cov_header_get(h),
            Subtable::MarkBasePos1(h) => cov_header_get(h),
            Subtable::MarkMarkPos1(h) => cov_header_get(h),
            Subtable::MarkLigPos1(h) => cov_header_get(h),
            Subtable::ContextFormat1(h) => cov_header_get(h),
            Subtable::ContextFormat2(h) => cov_header_get(h),
            Subtable::ContextFormat3(h) => match &h.coverage {
                Some(c) => Ok((c, h.first_coverage_offset)),
                None => Err(ReadError::MalformedData),
            },
            Subtable::ChainedContextFormat1(t) => match &t.coverage {
                Some(c) => Ok((c, t.coverage_offset)),
                None => Err(ReadError::MalformedData),
            },
            Subtable::ChainedContextFormat2(t) => match &t.coverage {
                Some(c) => Ok((c, t.coverage_offset)),
                None => Err(ReadError::MalformedData),
            },
            Subtable::ChainedContextFormat3(t) => {
                if t.input_coverages.len() == 0 {
                    return Err(ReadError::OutOfBounds);
                }
                match &t.input_coverages[0] {
                    Some(c) => Ok((c, t.first_input_coverage_offset)),
                    None => Err(ReadError::MalformedData),
                }
            },
            Subtable::ReverseChainContext(h) => cov_header_get(h),
        }
    }
}

/// The primary coverage of a simple header.
fn cov_header_get(h: &CoverageHeader) -> (r: Result<(&CoverageTable, u16), ReadError>)
    ensures
        r.is_ok() == (cov_header_pair(*h) is Some),
        r matches Ok(p) ==> cov_header_pair(*h) == Some((p.0@, p.1)),
{
    match &h.coverage {
        Some(c) => Ok((c, h.coverage_offset)),
        None => Err(ReadError::MalformedData),
    }
}


/// Byte offset of the primary coverage from the subtable start, read
/// from the header fields the `(kind, type, format)` shape names.
pub open spec fn primary_coverage_offset(d: Seq<u8>, off: int, s: bool, t: u16) -> u16 {
    let fmt = u16_at(d, off);
    if ((s && t == 5) || (!s && t == 7)) && fmt == 3 {
        if u16_at(d, off + 2) > 0 {
            u16_at(d, off + 6)
        } else {
            0
        }
    } else if ((s && t == 6) || (!s && t == 8)) && fmt == 3 {
        if f3_in_count(d, off) > 0 {
            u16_at(d, f3_in_pos(d, off) + 2)
        } else {
            0
        }
    } else {
        u16_at(d, off + 2)
    }
}

/// Whether the subtable at `off` exposes a usable primary coverage: the
/// shape declares one and its bytes decode.
pub open spec fn primary_coverage_ok(d: Seq<u8>, off: int, s: bool, t: u16) -> bool {
    let fmt = u16_at(d, off);
    let declared = if ((s && t == 5) || (!s && t == 7)) && fmt == 3 {
        u16_at(d, off + 2) > 0
    } else if ((s && t == 6) || (!s && t == 8)) && fmt == 3 {
        f3_in_count(d, off) > 0
    } else {
        true
    };
    declared && spec_parse_coverage(d, off + primary_coverage_offset(d, off, s, t)) is Some
}

/// What a classified subtable's exposed primary coverage is, in terms of
/// the bytes alone: it exists exactly when `primary_coverage_ok` holds,
/// at the offset `primary_coverage_offset` names, decoding to the
/// coverage encoded there.
pub proof fn lemma_coverage_and_offset_bridge(d: Seq<u8>, off: int, s: bool, t: u16, st: Subtable)
    requires
        tag_matches(st, s, t, u16_at(d, off)),
        cov_fields_ok(d, off, st),
    ensures
        (spec_coverage_and_offset(st) is Some) == primary_coverage_ok(d, off, s, t),
        spec_coverage_and_offset(st) matches Some(p) ==> p.1 == primary_coverage_offset(
            d,
            off,
            s,
            t,
        ) && spec_parse_coverage(d, off + p.1) == Some(p.0),
{
    match st {
        Subtable::ContextFormat3(h) => {
            if h.coverage_count > 0 {
                assert(opt_cov_view(h.coverage) == spec_parse_coverage(
                    d,
                    off + u16_at(d, off + 6),
                ));
            }
        },
        Subtable::ChainedContextFormat3(t3) => {
            if t3.input_coverages@.len() >= 1 {
                assert(opt_cov_view(t3.input_coverages@[0]) == spec_parse_coverage(
                    d,
                    off + u16_at(d, f3_in_pos(d, off) + 2),
                ));
            }
        },
        _ => {},
    }
}

} // verus!
