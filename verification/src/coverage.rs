//! Coverage tables: queryable glyph sets decoded from one of the two
//! standard encodings, a sparse glyph list or a range list. A query yields
//! the coverage index of a glyph, the position the glyph holds in the set.

use vstd::prelude::*;

use crate::raw::{read_u16, u16_at, ReadError};

verus! {

/// One record of a range-list coverage table.
#[derive(Clone, Copy, Debug, PartialEq, Eq, Structural)]
pub struct RangeRecord {
    /// First glyph id of the range.
    pub start: u16,
    /// Last glyph id of the range, inclusive.
    pub end: u16,
    /// Coverage index of the first glyph of the range.
    pub start_coverage_index: u16,
}

/// A decoded coverage table.
#[derive(Clone, Debug, PartialEq, Eq)]
pub enum CoverageTable {
    /// Sparse glyph list.
    Format1 {
        /// The listed glyph ids; the coverage index of a glyph is its
        /// position here.
        glyphs: Vec<u16>,
    },
    /// Range list.
    Format2 {
        /// The listed glyph ranges.
        ranges: Vec<RangeRecord>,
    },
}

/// Mathematical model of a coverage table.
pub enum CoverageView {
    Glyphs(Seq<u16>),
    Ranges(Seq<RangeRecord>),
}

impl View for CoverageTable {
    type V = CoverageView;

    open spec fn view(&self) -> CoverageView {
        match self {
            CoverageTable::Format1 { glyphs } => CoverageView::Glyphs(glyphs@),
            CoverageTable::Format2 { ranges } => CoverageView::Ranges(ranges@),
        }
    }
}

/// Whether a glyph list holds `g`.
pub open spec fn glyph_list_covers(s: Seq<u16>, g: u16) -> bool {
    s.contains(g)
}

/// Whether a range list holds `g`.
pub open spec fn range_list_covers(rs: Seq<RangeRecord>, g: u16) -> bool {
    exists|i: int| 0 <= i < rs.len() && (#[trigger] rs[i]).start <= g <= rs[i].end
}

/// Whether the coverage set holds glyph `g`.
pub open spec fn cov_covers(v: CoverageView, g: u16) -> bool {
    match v {
        CoverageView::Glyphs(s) => glyph_list_covers(s, g),
        CoverageView::Ranges(rs) => range_list_covers(rs, g),
    }
}

/// `i` is the position of the first occurrence of `g` in the glyph list.
pub open spec fn is_first_glyph_match(s: Seq<u16>, g: u16, i: int) -> bool {
    0 <= i < s.len() && s[i] == g && forall|j: int| 0 <= j < i ==> s[j] != g
}

/// `i` is the position of the first range holding `g`.
pub open spec fn is_first_range_match(rs: Seq<RangeRecord>, g: u16, i: int) -> bool {
    0 <= i < rs.len() && rs[i].start <= g <= rs[i].end && forall|j: int|
        0 <= j < i ==> !((#[trigger] rs[j]).start <= g <= rs[j].end)
}

/// Coverage index of `g` within a range record that holds it.
pub open spec fn range_value(r: RangeRecord, g: u16) -> u16 {
    ((r.start_coverage_index + g - r.start) % 0x10000) as u16
}

/// Coverage index of `g` in a glyph list: position of the first
/// occurrence, `None` when absent or beyond the largest expressible index.
pub open spec fn glyph_list_get(s: Seq<u16>, g: u16) -> Option<u16> {
    if exists|i: int| is_first_glyph_match(s, g, i) && i < 0x10000 {
        Some((choose|i: int| is_first_glyph_match(s, g, i) && i < 0x10000) as u16)
    } else {
        None
    }
}

/// Coverage index of `g` in a range list, following the first matching
/// range.
pub open spec fn range_list_get(rs: Seq<RangeRecord>, g: u16) -> Option<u16> {
    if exists|i: int| is_first_range_match(rs, g, i) {
        Some(range_value(rs[choose|i: int| is_first_range_match(rs, g, i)], g))
    } else {
        None
    }
}

/// Coverage index of glyph `g`, following the first matching entry; `None`
/// when the glyph is not covered.
pub open spec fn cov_get(v: CoverageView, g: u16) -> Option<u16> {
    match v {
        CoverageView::Glyphs(s) => glyph_list_get(s, g),
        CoverageView::Ranges(rs) => range_list_get(rs, g),
    }
}

/// The coverage table encoded at `off`, or `None` where the bytes do not
/// form one.
pub open spec fn spec_parse_coverage(d: Seq<u8>, off: int) -> Option<CoverageView> {
    if off < 0 || off + 4 > d.len() {
        None
    } else {
        let fmt = u16_at(d, off);
        let n = u16_at(d, off + 2) as int;
        if fmt == 1 {
            if off + 4 + 2 * n <= d.len() {
                Some(CoverageView::Glyphs(Seq::new(n as nat, |j: int| u16_at(d, off + 4 + 2 * j))))
            } else {
                None
            }
        } else if fmt == 2 {
            if off + 4 + 6 * n <= d.len() {
                Some(
                    CoverageView::Ranges(
                        Seq::new(
                            n as nat,
                            |j: int|
                                RangeRecord {
                                    start: u16_at(d, off + 4 + 6 * j),
                                    end: u16_at(d, off + 4 + 6 * j + 2),
                                    start_coverage_index: u16_at(d, off + 4 + 6 * j + 4),
                                },
                        ),
                    ),
                )
            } else {
                None
            }
        } else {
            None
        }
    }
}

proof fn lemma_first_glyph_match_unique(s: Seq<u16>, g: u16, i: int, k: int)
    requires
        is_first_glyph_match(s, g, i),
        is_first_glyph_match(s, g, k),
    ensures
        i == k,
{
    if i < k {
        assert(s[i] != g);
    } else if k < i {
        assert(s[k] != g);
    }
}

proof fn lemma_first_range_match_unique(rs: Seq<RangeRecord>, g: u16, i: int, k: int)
    requires
        is_first_range_match(rs, g, i),
        is_first_range_match(rs, g, k),
    ensures
        i == k,
{
    if i < k {
        assert(!(rs[i].start <= g <= rs[i].end));
    } else if k < i {
        assert(!(rs[k].start <= g <= rs[k].end));
    }
}

/// Decodes the coverage table at `offset`.
#[verifier::loop_isolation(false)]
pub fn parse_coverage(data: &[u8], offset: usize) -> (r: Result<CoverageTable, ReadError>)
    ensures
        match r {
            Ok(c) => spec_parse_coverage(data@, offset as int) == Some(c@),
            Err(_) => spec_parse_coverage(data@, offset as int) is None,
        },
{
    if data.len() < 4 || offset > data.len() - 4 {
        return Err(ReadError::OutOfBounds);
    }
    let fmt = read_u16(data, offset);
    let n = read_u16(data, offset + 2) as usize;
    let avail = data.len() - offset - 4;
    if fmt == 1 {
        if n > avail / 2 {
            return Err(ReadError::OutOfBounds);
        }
        let mut glyphs: Vec<u16> = Vec::new();
        let mut i: usize = 0;
        while i < n
            invariant
                offset + 4 + 2 * n <= data@.len(),
                data@.len() <= usize::MAX,
                i <= n,
                glyphs@.len() == i as int,
                forall|j: int| 0 <= j < i ==> glyphs@[j] == u16_at(data@, offset + 4 + 2 * j),
            decreases n - i,
        {
            glyphs.push(read_u16(data, offset + 4 + 2 * i));
            i += 1;
        }
        proof {
            assert(glyphs@ =~= Seq::new(n as nat, |j: int| u16_at(data@, offset + 4 + 2 * j)));
        }
        Ok(CoverageTable::Format1 { glyphs })
    } else if fmt == 2 {
        if n > avail / 6 {
            return Err(ReadError::OutOfBounds);
        }
        let mut ranges: Vec<RangeRecord> = Vec::new();
        let mut i: usize = 0;
        while i < n
            invariant
                offset + 4 + 6 * n <= data@.len(),
                data@.len() <= usize::MAX,
                i <= n,
                ranges@.len() == i as int,
                forall|j: int|
                    0 <= j < i ==> ranges@[j] == (RangeRecord {
                        start: u16_at(data@, offset + 4 + 6 * j),
                        end: u16_at(data@, offset + 4 + 6 * j + 2),
                        start_coverage_index: u16_at(data@, offset + 4 + 6 * j + 4),
                    }),
            decreases n - i,
        {
            let base = offset + 4 + 6 * i;
            ranges.push(
                RangeRecord {
                    start: read_u16(data, base),
                    end: read_u16(data, base + 2),
                    start_coverage_index: read_u16(data, base + 4),
                },
            );
            i += 1;
        }
        proof {
            assert(ranges@ =~= Seq::new(
                n as nat,
                |j: int|
                    RangeRecord {
                        start: u16_at(data@, offset + 4 + 6 * j),
                        end: u16_at(data@, offset + 4 + 6 * j + 2),
                        start_coverage_index: u16_at(data@, offset + 4 + 6 * j + 4),
                    },
            ));
        }
        Ok(CoverageTable::Format2 { ranges })
    } else {
        Err(ReadError::MalformedData)
    }
}

impl CoverageTable {
    /// Whether the set holds glyph `glyph`.
    #[verifier::loop_isolation(false)]
    pub fn covers(&self, glyph: u16) -> (r: bool)
        ensures
            r == cov_covers(self@, glyph),
    {
        match self {
            CoverageTable::Format1 { glyphs } => {
                let mut i: usize = 0;
                while i < glyphs.len()
                    invariant
                        i <= glyphs@.len(),
                        forall|j: int| 0 <= j < i ==> glyphs@[j] != glyph,
                    decreases glyphs@.len() - i,
                {
                    if glyphs[i] == glyph {
                        proof {
                            assert(glyphs@[i as int] == glyph);
                            assert(glyph_list_covers(glyphs@, glyph));
                        }
                        return true;
                    }
                    i += 1;
                }
                false
            },
            CoverageTable::Format2 { ranges } => {
                let mut i: usize = 0;
                while i < ranges.len()
                    invariant
                        i <= ranges@.len(),
                        forall|j: int|
                            0 <= j < i ==> !((#[trigger] ranges@[j]).start <= glyph
                                <= ranges@[j].end),
                    decreases ranges@.len() - i,
                {
                    let rr = ranges[i];
                    if rr.start <= glyph && glyph <= rr.end {
                        proof {
                            assert((ranges@[i as int]).start <= glyph <= ranges@[i as int].end);
                            assert(range_list_covers(ranges@, glyph));
                        }
                        return true;
                    }
                    i += 1;
                }
                false
            },
        }
    }

    /// Coverage index of glyph `glyph`, or `None` when not covered.
    #[verifier::loop_isolation(false)]
    pub fn get(&self, glyph: u16) -> (r: Option<u16>)
        ensures
            r == cov_get(self@, glyph),
    {
        match self {
            CoverageTable::Format1 { glyphs } => {
                let mut i: usize = 0;
                let end = if glyphs.len() < 0x10000 {
                    glyphs.len()
                } else {
                    0x10000
                };
                while i < end
                    invariant
                        end == if glyphs@.len() < 0x10000 {
                            glyphs@.len() as int
                        } else {
                            0x10000
                        },
                        i <= end,
                        forall|j: int| 0 <= j < i ==> glyphs@[j] != glyph,
                    decreases end - i,
                {
                    if glyphs[i] == glyph {
                        proof {
                            assert(is_first_glyph_match(glyphs@, glyph, i as int));
                            let k = choose|k: int|
                                is_first_glyph_match(glyphs@, glyph, k) && k < 0x10000;
                            lemma_first_glyph_match_unique(glyphs@, glyph, i as int, k);
                            assert(glyph_list_get(glyphs@, glyph) == Some(i as u16));
                        }
                        return Some(i as u16);
                    }
                    i += 1;
                }
                proof {
                    if exists|k: int| is_first_glyph_match(glyphs@, glyph, k) && k < 0x10000 {
                        let k = choose|k: int|
                            is_first_glyph_match(glyphs@, glyph, k) && k < 0x10000;
                        assert(glyphs@[k] != glyph);
                    }
                    assert(glyph_list_get(glyphs@, glyph) is None);
                }
                None
            },
            CoverageTable::Format2 { ranges } => {
                let mut i: usize = 0;
                while i < ranges.len()
                    invariant
                        i <= ranges@.len(),
                        forall|j: int|
                            0 <= j < i ==> !((#[trigger] ranges@[j]).start <= glyph
                                <= ranges@[j].end),
                    decreases ranges@.len() - i,
                {
                    let rr = ranges[i];
                    if rr.start <= glyph && glyph <= rr.end {
                        let v = (rr.start_coverage_index as u32) + (glyph as u32) - (rr.start
                            as u32);
                        proof {
                            assert(is_first_range_match(ranges@, glyph, i as int));
                            let k = choose|k: int| is_first_range_match(ranges@, glyph, k);
                            lemma_first_range_match_unique(ranges@, glyph, i as int, k);
                            assert(range_list_get(ranges@, glyph) == Some(
                                range_value(ranges@[i as int], glyph),
                            ));
                            assert(range_value(ranges@[i as int], glyph) == ((v % 0x10000) as u16));
                        }
                        return Some((v % 0x10000) as u16);
                    }
                    i += 1;
                }
                proof {
                    if exists|k: int| is_first_range_match(ranges@, glyph, k) {
                        let k = choose|k: int| is_first_range_match(ranges@, glyph, k);
                        assert(!(ranges@[k].start <= glyph <= ranges@[k].end));
                    }
                    assert(range_list_get(ranges@, glyph) is None);
                }
                None
            },
        }
    }
}

} // verus!
