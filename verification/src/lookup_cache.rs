//! Cache of lookup and subtable metadata for one GSUB or GPOS table.
//!
//! Entries populate lazily or eagerly from raw table bytes; a malformed
//! subtable is dropped without failing its lookup, and a malformed lookup
//! is cached as a terminal error. Each entry aggregates the primary
//! coverage of its subtables into a glyph-set digest with no false
//! negatives.

use vstd::prelude::*;

use crate::coverage::{cov_covers, cov_get, spec_parse_coverage, CoverageTable};
use crate::digest::GlyphDigest;
use crate::raw::{read_u16, u16_at, ReadError};
use crate::subtable::{
    cov_fields_ok, direct_ok, lemma_coverage_and_offset_bridge, primary_coverage_offset,
    primary_coverage_ok, spec_coverage_and_offset, spec_is_ext, spec_parse_extension,
    spec_resolve, tag_matches, Subtable,
};

verus! {

/// Number of lookups the table's lookup list declares; 0 where the list
/// header or its offset array lies outside the data.
pub open spec fn spec_lookup_count(d: Seq<u8>) -> int {
    if d.len() < 10 {
        0
    } else {
        let lp = u16_at(d, 8) as int;
        if lp + 2 > d.len() {
            0
        } else {
            let n = u16_at(d, lp) as int;
            if lp + 2 + 2 * n <= d.len() {
                n
            } else {
                0
            }
        }
    }
}

/// Byte offset of lookup `i` from the table base: the lookup list offset
/// plus the list's `i`-th entry.
pub open spec fn spec_lookup_offset(d: Seq<u8>, i: int) -> int {
    u16_at(d, 8) + u16_at(d, u16_at(d, 8) + 2 + 2 * i)
}

/// Everything needed to decode one lookup: where it starts, which kind of
/// table it came from, and the table bytes themselves.
pub struct LookupData<'a> {
    /// Offset of the lookup from the base of the layout table.
    pub offset: usize,
    /// True if the lookup comes from a substitution table.
    pub is_subst: bool,
    /// The whole layout table.
    pub table_data: &'a [u8],
}

/// A layout table that exposes its lookup count and per-lookup data.
pub trait LookupHost {
    /// The table bytes.
    spec fn spec_table(&self) -> Seq<u8>;

    /// Whether the table is a substitution table.
    spec fn spec_is_subst(&self) -> bool;

    /// Number of lookups the table declares.
    fn lookup_count(&self) -> (n: u16)
        ensures
            n as int == spec_lookup_count(self.spec_table()),
    ;

    /// Location and table bytes of lookup `index`; fails exactly on an
    /// index the table does not declare.
    fn lookup_data<'a>(&'a self, index: u16) -> (r: Result<LookupData<'a>, ReadError>)
        ensures
            r.is_ok() == ((index as int) < spec_lookup_count(self.spec_table())),
            r matches Ok(ld) ==> ld.table_data@ == self.spec_table() && ld.is_subst
                == self.spec_is_subst() && ld.offset as int == spec_lookup_offset(
                self.spec_table(),
                index as int,
            ),
    ;
}

/// Reads the lookup count of the table whose bytes are `data`.
fn host_lookup_count(data: &[u8]) -> (n: u16)
    ensures
        n as int == spec_lookup_count(data@),
{
    let dlen = data.len();
    if dlen < 10 {
        return 0;
    }
    let lp = read_u16(data, 8) as usize;
    if lp + 2 > dlen {
        return 0;
    }
    let n = read_u16(data, lp);
    if (n as usize) > (dlen - lp - 2) / 2 {
        return 0;
    }
    n
}

/// Reads the data of lookup `index` of the table whose bytes are `data`.
fn host_lookup_data<'a>(data: &'a [u8], is_subst: bool, index: u16) -> (r: Result<
    LookupData<'a>,
    ReadError,
>)
    ensures
        r.is_ok() == ((index as int) < spec_lookup_count(data@)),
        r matches Ok(ld) ==> ld.table_data@ == data@ && ld.is_subst == is_subst && ld.offset
            as int == spec_lookup_offset(data@, index as int),
{
    let count = host_lookup_count(data);
    if index >= count {
        return Err(ReadError::OutOfBounds);
    }
    let lp = read_u16(data, 8) as usize;
    let rel = read_u16(data, lp + 2 + 2 * (index as usize));
    Ok(LookupData { offset: lp + rel as usize, is_subst, table_data: data })
}

/// A substitution (GSUB) table held as raw bytes.
pub struct Gsub {
    /// The table bytes.
    pub data: Vec<u8>,
}

impl Gsub {
    /// Wraps raw substitution-table bytes.
    pub fn new(data: Vec<u8>) -> (r: Gsub)
        ensures
            r.data@ == data@,
    {
        Gsub { data }
    }
}

impl LookupHost for Gsub {
    open spec fn spec_table(&self) -> Seq<u8> {
        self.data@
    }

    open spec fn spec_is_subst(&self) -> bool {
        true
    }

    fn lookup_count(&self) -> (n: u16) {
        host_lookup_count(self.data.as_slice())
    }

    fn lookup_data<'a>(&'a self, index: u16) -> (r: Result<LookupData<'a>, ReadError>) {
        host_lookup_data(self.data.as_slice(), true, index)
    }
}

/// A positioning (GPOS) table held as raw bytes.
pub struct Gpos {
    /// The table bytes.
    pub data: Vec<u8>,
}

impl Gpos {
    /// Wraps raw positioning-table bytes.
    pub fn new(data: Vec<u8>) -> (r: Gpos)
        ensures
            r.data@ == data@,
    {
        Gpos { data }
    }
}

impl LookupHost for Gpos {
    open spec fn spec_table(&self) -> Seq<u8> {
        self.data@
    }

    open spec fn spec_is_subst(&self) -> bool {
        false
    }

    fn lookup_count(&self) -> (n: u16) {
        host_lookup_count(self.data.as_slice())
    }

    fn lookup_data<'a>(&'a self, index: u16) -> (r: Result<LookupData<'a>, ReadError>) {
        host_lookup_data(self.data.as_slice(), false, index)
    }
}

/// A decoded lookup header.
pub struct LookupHeader {
    /// Numeric lookup type.
    pub lookup_type: u16,
    /// Flag bits.
    pub lookup_flag: u16,
    /// Byte offsets of the subtables from the lookup start.
    pub subtable_offsets: Vec<u16>,
    /// Mark-filtering-set id; present exactly when the flag bit asks for
    /// one.
    pub mark_filtering_set: Option<u16>,
}

/// Mathematical model of a lookup header.
pub struct LookupHeaderView {
    pub lookup_type: u16,
    pub lookup_flag: u16,
    pub subtable_offsets: Seq<u16>,
    pub mark_filtering_set: Option<u16>,
}

impl View for LookupHeader {
    type V = LookupHeaderView;

    open spec fn view(&self) -> LookupHeaderView {
        LookupHeaderView {
            lookup_type: self.lookup_type,
            lookup_flag: self.lookup_flag,
            subtable_offsets: self.subtable_offsets@,
            mark_filtering_set: self.mark_filtering_set,
        }
    }
}

/// The lookup header encoded at `off`, or `None` where the bytes do not
/// form one.
pub open spec fn spec_parse_lookup(d: Seq<u8>, off: int) -> Option<LookupHeaderView> {
    if off < 0 || off + 6 > d.len() {
        None
    } else {
        let t = u16_at(d, off);
        let f = u16_at(d, off + 2);
        let n = u16_at(d, off + 4) as int;
        if off + 6 + 2 * n > d.len() {
            None
        } else {
            let offsets = Seq::new(n as nat, |j: int| u16_at(d, off + 6 + 2 * j));
            if f & 0x0010 != 0 {
                if off + 6 + 2 * n + 2 <= d.len() {
                    Some(
                        LookupHeaderView {
                            lookup_type: t,
                            lookup_flag: f,
                            subtable_offsets: offsets,
                            mark_filtering_set: Some(u16_at(d, off + 6 + 2 * n)),
                        },
                    )
                } else {
                    None
                }
            } else {
                Some(
                    LookupHeaderView {
                        lookup_type: t,
                        lookup_flag: f,
                        subtable_offsets: offsets,
                        mark_filtering_set: None,
                    },
                )
            }
        }
    }
}

/// Decodes the lookup header at `offset`.
#[verifier::loop_isolation(false)]
pub fn parse_lookup(data: &[u8], offset: usize) -> (r: Result<LookupHeader, ReadError>)
    ensures
        match r {
            Ok(h) => spec_parse_lookup(data@, offset as int) == Some(h@),
            Err(_) => spec_parse_lookup(data@, offset as int) is None,
        },
{
    let dlen = data.len();
    if dlen < 6 || offset > dlen - 6 {
        return Err(ReadError::OutOfBounds);
    }
    let lookup_type = read_u16(data, offset);
    let lookup_flag = read_u16(data, offset + 2);
    let n = read_u16(data, offset + 4) as usize;
    if n > (dlen - offset - 6) / 2 {
        return Err(ReadError::OutOfBounds);
    }
    let mut subtable_offsets: Vec<u16> = Vec::new();
    let mut i: usize = 0;
    while i < n
        invariant
            i <= n,
            subtable_offsets@.len() == i as int,
            forall|j: int|
                0 <= j < i ==> subtable_offsets@[j] == u16_at(data@, offset + 6 + 2 * j),
        decreases n - i,
    {
        subtable_offsets.push(read_u16(data, offset + 6 + 2 * i));
        i += 1;
    }
    proof {
        assert(subtable_offsets@ =~= Seq::new(
            n as nat,
            |j: int| u16_at(data@, offset + 6 + 2 * j),
        ));
    }
    let mark_filtering_set = if lookup_flag & 0x0010 != 0 {
        let p = offset + 6 + 2 * n;
        if dlen - p < 2 {
            return Err(ReadError::OutOfBounds);
        }
        Some(read_u16(data, p))
    } else {
        None
    };
    Ok(LookupHeader { lookup_type, lookup_flag, subtable_offsets, mark_filtering_set })
}

/// The flag-derived properties of a lookup: the flag bits, with the
/// mark-filtering-set id in the upper half when one is present.
pub open spec fn spec_props(h: LookupHeaderView) -> u32 {
    match h.mark_filtering_set {
        Some(m) => (h.lookup_flag as u32) | ((m as u32) << 16),
        None => h.lookup_flag as u32,
    }
}

/// Whether a substitution lookup processes the glyph run back to front:
/// reverse-chained lookups do, and so does an extension lookup wrapping
/// one; `None` where that cannot be read.
pub open spec fn spec_is_reversed(d: Seq<u8>, h: LookupHeaderView, lookup_offset: int) -> Option<
    bool,
> {
    if h.lookup_type == 8 {
        Some(true)
    } else if h.lookup_type == 7 {
        if h.subtable_offsets.len() == 0 {
            None
        } else {
            match spec_parse_extension(d, lookup_offset + h.subtable_offsets[0]) {
                Some(p) => Some(p.0 == 8),
                None => None,
            }
        }
    } else {
        Some(false)
    }
}

/// `spec_is_reversed`, with an unreadable answer standing for "not
/// reversed".
pub open spec fn spec_is_reversed_or_false(
    d: Seq<u8>,
    h: LookupHeaderView,
    lookup_offset: int,
) -> bool {
    match spec_is_reversed(d, h, lookup_offset) {
        Some(b) => b,
        None => false,
    }
}

/// Whether a substitution lookup processes the glyph run back to front.
fn is_reversed(table_data: &[u8], lookup: &LookupHeader, lookup_offset: usize) -> (r: Option<
    bool,
>)
    ensures
        r == spec_is_reversed(table_data@, lookup@, lookup_offset as int),
{
    let dlen = table_data.len();
    if lookup.lookup_type == 8 {
        Some(true)
    } else if lookup.lookup_type == 7 {
        if lookup.subtable_offsets.len() == 0 {
            return None;
        }
        let rel = lookup.subtable_offsets[0];
        if (rel as usize) > usize::MAX - lookup_offset {
            return None;
        }
        match crate::subtable::parse_extension(table_data, lookup_offset + rel as usize) {
            Ok(p) => Some(p.0 == 8),
            Err(_) => None,
        }
    } else {
        Some(false)
    }
}

/// A digest holds every glyph of a glyph range.
pub open spec fn range_in_digest(dg: GlyphDigest, first: u16, last: u16) -> bool {
    forall|g: u16| first <= g <= last ==> dg.spec_may_have(g)
}

proof fn lemma_range_in_digest_mono(d1: GlyphDigest, d2: GlyphDigest, first: u16, last: u16)
    requires
        range_in_digest(d1, first, last),
        forall|h: u16| d1.spec_may_have(h) ==> d2.spec_may_have(h),
    ensures
        range_in_digest(d2, first, last),
{
    assert forall|g: u16| first <= g <= last implies d2.spec_may_have(g) by {
        assert(d1.spec_may_have(g));
    }
}

/// Inserts every glyph a coverage table holds into a digest; previously
/// reported members stay members.
#[verifier::loop_isolation(false)]
pub fn add_coverage_to_digest(coverage: &CoverageTable, digest: &mut GlyphDigest)
    ensures
        forall|g: u16| cov_covers(coverage@, g) ==> final(digest).spec_may_have(g),
        forall|h: u16| old(digest).spec_may_have(h) ==> final(digest).spec_may_have(h),
{
    match coverage {
        CoverageTable::Format1 { glyphs } => {
            let mut i: usize = 0;
            while i < glyphs.len()
                invariant
                    i <= glyphs@.len(),
                    forall|j: int| 0 <= j < i ==> digest.spec_may_have(#[trigger] glyphs@[j]),
                    forall|h: u16|
                        old(digest).spec_may_have(h) ==> digest.spec_may_have(h),
                decreases glyphs@.len() - i,
            {
                digest.add(glyphs[i]);
                i += 1;
            }
            proof {
                assert forall|g: u16| cov_covers(coverage@, g) implies digest.spec_may_have(
                    g,
                ) by {
                    let w = choose|w: int| 0 <= w < glyphs@.len() && glyphs@[w] == g;
                    assert(digest.spec_may_have(glyphs@[w]));
                }
            }
        },
        CoverageTable::Format2 { ranges } => {
            let mut i: usize = 0;
            while i < ranges.len()
                invariant
                    i <= ranges@.len(),
                    forall|j: int|
                        0 <= j < i ==> range_in_digest(
                            *digest,
                            (#[trigger] ranges@[j]).start,
                            ranges@[j].end,
                        ),
                    forall|h: u16|
                        old(digest).spec_may_have(h) ==> digest.spec_may_have(h),
                decreases ranges@.len() - i,
            {
                let rr = ranges[i];
                let ghost dg_before = *digest;
                digest.add_range(rr.start, rr.end);
                proof {
                    assert forall|j: int|
                        0 <= j < i + 1 implies range_in_digest(
                        *digest,
                        (#[trigger] ranges@[j]).start,
                        ranges@[j].end,
                    ) by {
                        if j < i {
                            lemma_range_in_digest_mono(
                                dg_before,
                                *digest,
                                ranges@[j].start,
                                ranges@[j].end,
                            );
                        }
                    }
                }
                i += 1;
            }
            proof {
                assert forall|g: u16| cov_covers(coverage@, g) implies digest.spec_may_have(
                    g,
                ) by {
                    let w = choose|w: int|
                        0 <= w < ranges@.len() && (#[trigger] ranges@[w]).start <= g
                            <= ranges@[w].end;
                    assert(range_in_digest(*digest, ranges@[w].start, ranges@[w].end));
                }
            }
        },
    }
}

/// Current state of a lookup cache entry.
#[derive(Copy, Clone, PartialEq, Eq, Debug, Structural)]
pub enum LookupState {
    /// Lookup has not been cached yet; supports lazy population.
    Vacant,
    /// Lookup is available for use.
    Ready,
    /// An error occurred while reading this lookup; never retried.
    Error,
}

/// Cached information about a lookup.
#[derive(Copy, Clone, PartialEq, Eq, Debug, Structural)]
pub struct LookupInfo {
    /// Current state of this entry.
    pub state: LookupState,
    /// Flag bits, with the mark-filtering-set id in the upper half.
    pub props: u32,
    /// True if the lookup comes from a substitution table.
    pub is_subst: bool,
    /// Right-to-left processing, for cursive lookups.
    pub is_rtl: bool,
    /// True if glyphs are processed in reverse for this lookup.
    pub is_reversed: bool,
    /// Index of the first subtable in the cache's subtable array.
    pub subtables_start: u32,
    /// Number of subtables in the cache's subtable array.
    pub subtables_count: u16,
    /// Digest over the primary coverage of all subtables of the lookup.
    pub digest: GlyphDigest,
}

impl LookupInfo {
    /// The state of an entry nothing has touched.
    pub open spec fn spec_vacant() -> LookupInfo {
        LookupInfo {
            state: LookupState::Vacant,
            props: 0,
            is_subst: false,
            is_rtl: false,
            is_reversed: false,
            subtables_start: 0,
            subtables_count: 0,
            digest: GlyphDigest { mask_fine: 0, mask_mid: 0, mask_coarse: 0 },
        }
    }

    /// An entry nothing has touched.
    pub fn vacant() -> (r: LookupInfo)
        ensures
            r == LookupInfo::spec_vacant(),
    {
        LookupInfo {
            state: LookupState::Vacant,
            props: 0,
            is_subst: false,
            is_rtl: false,
            is_reversed: false,
            subtables_start: 0,
            subtables_count: 0,
            digest: GlyphDigest { mask_fine: 0, mask_mid: 0, mask_coarse: 0 },
        }
    }

    /// The range this lookup's subtables occupy in the cache's subtable
    /// array.
    pub fn subtables_range(&self) -> (r: core::ops::Range<usize>)
        requires
            self.subtables_start + self.subtables_count <= usize::MAX,
        ensures
            r.start == self.subtables_start,
            r.end == self.subtables_start + self.subtables_count,
    {
        let start = self.subtables_start as usize;
        start..(start + self.subtables_count as usize)
    }
}

/// Cached information about a subtable.
#[derive(Copy, Clone, PartialEq, Eq, Debug, Structural)]
pub struct SubtableInfo {
    /// Byte offset of the subtable from the base of the layout table,
    /// after extension resolution.
    pub offset: u32,
    /// Byte offset of the primary coverage from the subtable start.
    pub coverage_offset: u16,
    /// True if the subtable is part of a substitution table.
    pub is_subst: bool,
    /// Resolved (post-extension) numeric lookup type.
    pub lookup_type: u8,
    /// Digest over the subtable's primary coverage.
    pub digest: GlyphDigest,
}

/// Whether the primary coverage recorded for a subtable holds glyph `g`,
/// read back from the table bytes.
pub open spec fn subinfo_covers(d: Seq<u8>, si: SubtableInfo, g: u16) -> bool {
    match spec_parse_coverage(d, si.offset + si.coverage_offset) {
        Some(cv) => cov_covers(cv, g),
        None => false,
    }
}

/// Both digests answer "possibly present" for every glyph the subtable's
/// primary coverage holds, and the lookup digest is a bloom-filter
/// superset of the subtable's: every possible member of the subtable
/// digest, false positives included, is possible in the lookup digest.
pub open spec fn sub_digests_cover(d: Seq<u8>, si: SubtableInfo, lookup_digest: GlyphDigest) -> bool {
    &&& forall|g: u16|
        #[trigger] subinfo_covers(d, si, g) ==> si.digest.spec_may_have(g)
            && lookup_digest.spec_may_have(g)
    &&& forall|g: u16|
        #[trigger] si.digest.spec_may_have(g) ==> lookup_digest.spec_may_have(g)
}

proof fn lemma_sub_digests_cover_mono(
    d: Seq<u8>,
    si: SubtableInfo,
    d1: GlyphDigest,
    d2: GlyphDigest,
)
    requires
        sub_digests_cover(d, si, d1),
        forall|h: u16| d1.spec_may_have(h) ==> d2.spec_may_have(h),
    ensures
        sub_digests_cover(d, si, d2),
{
    assert forall|g: u16|
        subinfo_covers(d, si, g) implies si.digest.spec_may_have(g) && d2.spec_may_have(g) by {
        assert(si.digest.spec_may_have(g) && d1.spec_may_have(g));
    }
    assert forall|g: u16| si.digest.spec_may_have(g) implies d2.spec_may_have(g) by {
        assert(d1.spec_may_have(g));
    }
}

/// A cache entry is well formed against the subtable array and table
/// bytes: a ready entry's range lies inside the array and its digests
/// cover every glyph its subtables' coverage holds.
pub open spec fn entry_wf(e: LookupInfo, subs: Seq<SubtableInfo>, d: Seq<u8>) -> bool {
    e.state == LookupState::Ready ==> {
        &&& e.subtables_start + e.subtables_count <= subs.len()
        &&& forall|k: int|
            e.subtables_start <= k < e.subtables_start + e.subtables_count
                ==> sub_digests_cover(d, #[trigger] subs[k], e.digest)
    }
}

proof fn lemma_entry_wf_prefix(e: LookupInfo, subs1: Seq<SubtableInfo>, subs2: Seq<SubtableInfo>, d: Seq<u8>)
    requires
        entry_wf(e, subs1, d),
        subs1.is_prefix_of(subs2),
    ensures
        entry_wf(e, subs2, d),
{
    if e.state == LookupState::Ready {
        assert forall|k: int|
            e.subtables_start <= k < e.subtables_start + e.subtables_count
                implies sub_digests_cover(d, #[trigger] subs2[k], e.digest) by {
            assert(subs1[k] == subs2[k]);
            assert(sub_digests_cover(d, subs1[k], e.digest));
        }
    }
}

/// Cache holding lookup and subtable information for a single GSUB or
/// GPOS table.
#[derive(Clone)]
pub struct LookupCache {
    /// One entry per lookup index touched so far.
    pub lookups: Vec<LookupInfo>,
    /// Subtable entries, grouped contiguously per lookup.
    pub subtables: Vec<SubtableInfo>,
}

impl LookupCache {
    /// Every entry is well formed against the table whose bytes are `d`.
    pub open spec fn wf_for(self, d: Seq<u8>) -> bool {
        forall|i: int|
            0 <= i < self.lookups@.len() ==> entry_wf(#[trigger] self.lookups@[i], self.subtables@, d)
    }

    /// An empty cache.
    pub fn new() -> (r: LookupCache)
        ensures
            r.lookups@.len() == 0,
            r.subtables@.len() == 0,
    {
        LookupCache { lookups: Vec::new(), subtables: Vec::new() }
    }

    /// Drops all entries.
    pub fn clear(&mut self)
        ensures
            final(self).lookups@.len() == 0,
            final(self).subtables@.len() == 0,
    {
        self.lookups.clear();
        self.subtables.clear();
    }

    /// The entry for `index`, only when it is ready; a vacant or failed
    /// entry reads as absent.
    pub fn get(&self, index: u16) -> (r: Option<&LookupInfo>)
        ensures
            r.is_some() == ((index as int) < self.lookups@.len()
                && self.lookups@[index as int].state == LookupState::Ready),
            r matches Some(e) ==> *e == self.lookups@[index as int],
    {
        if (index as usize) < self.lookups.len() {
            let e = &self.lookups[index as usize];
            match e.state {
                LookupState::Ready => Some(e),
                _ => None,
            }
        } else {
            None
        }
    }

    /// The subtable entries of a lookup, in declaration order.
    pub fn subtables(&self, entry: &LookupInfo) -> (r: Option<&[SubtableInfo]>)
        ensures
            r.is_some() == (entry.subtables_start + entry.subtables_count
                <= self.subtables@.len()),
            r matches Some(s) ==> s@ == self.subtables@.subrange(
                entry.subtables_start as int,
                entry.subtables_start + entry.subtables_count,
            ),
    {
        let start = entry.subtables_start as usize;
        let count = entry.subtables_count as usize;
        if start > self.subtables.len() || count > self.subtables.len() - start {
            return None;
        }
        let sl = self.subtables.as_slice();
        Some(&sl[start..start + count])
    }
}


/// Whether building lookup `i` from table bytes `d` must succeed, given
/// the cache already holds `subs_len` subtables.
pub open spec fn build_ok(d: Seq<u8>, i: int, subs_len: int) -> bool {
    i < spec_lookup_count(d) && spec_parse_lookup(d, spec_lookup_offset(d, i)) is Some
        && subs_len <= u32::MAX
}

/// The allow-list of `(table kind, resolved numeric type)` pairs the
/// cache materializes; anything else is skipped.
pub open spec fn kind_supported(is_subst: bool, t: u16) -> bool {
    if is_subst {
        t == 1 || t == 2 || t == 3 || t == 4 || t == 6 || t == 8
    } else {
        t == 1 || t == 2 || t == 3 || t == 4 || t == 5 || t == 6 || t == 8
    }
}

/// Whether the declared subtable at absolute offset `so` is cached: its
/// extension indirection resolves, the resolved pair is supported, the
/// resolved offset fits the record, the bytes classify, and the primary
/// coverage decodes.
pub open spec fn spec_subtable_kept(d: Seq<u8>, is_subst: bool, kind: u16, so: int) -> bool {
    match spec_resolve(d, so, is_subst, kind) {
        Some(p) => kind_supported(is_subst, p.1) && p.0 <= u32::MAX && direct_ok(
            d,
            p.0,
            is_subst,
            p.1,
        ) && primary_coverage_ok(d, p.0, is_subst, p.1),
        None => false,
    }
}

/// The cached record of a kept subtable: the unwrapped offset, the
/// post-extension numeric type, the owning table's kind, and the primary
/// coverage offset the resolved shape names.
pub open spec fn subinfo_matches(
    d: Seq<u8>,
    is_subst: bool,
    kind: u16,
    so: int,
    si: SubtableInfo,
) -> bool {
    match spec_resolve(d, so, is_subst, kind) {
        Some(p) => si.offset == p.0 && si.coverage_offset == primary_coverage_offset(
            d,
            p.0,
            is_subst,
            p.1,
        ) && si.is_subst == is_subst && si.lookup_type == p.1 as u8,
        None => false,
    }
}

/// `subs` is exactly the records of the kept subtables among the
/// lookup's first `k` declared offsets, in declaration order; skipped
/// subtables leave no record.
pub open spec fn kept_prefix(
    d: Seq<u8>,
    is_subst: bool,
    kind: u16,
    lookup_off: int,
    offsets: Seq<u16>,
    k: int,
    subs: Seq<SubtableInfo>,
) -> bool
    decreases k,
{
    if k <= 0 {
        subs.len() == 0
    } else {
        let so = lookup_off + offsets[k - 1];
        if spec_subtable_kept(d, is_subst, kind, so) {
            subs.len() >= 1 && kept_prefix(d, is_subst, kind, lookup_off, offsets, k - 1, subs.drop_last())
                && subinfo_matches(d, is_subst, kind, so, subs.last())
        } else {
            kept_prefix(d, is_subst, kind, lookup_off, offsets, k - 1, subs)
        }
    }
}

/// A ready entry matches lookup `i` of the table: its flag-derived
/// fields come from the lookup header, and its slice of the subtable
/// array holds exactly the kept subtables' records, in declared order.
pub open spec fn entry_matches_lookup(
    d: Seq<u8>,
    is_subst: bool,
    i: int,
    e: LookupInfo,
    subs: Seq<SubtableInfo>,
) -> bool {
    match spec_parse_lookup(d, spec_lookup_offset(d, i)) {
        Some(h) => {
            &&& e.state == LookupState::Ready
            &&& e.is_subst == is_subst
            &&& e.props == spec_props(h)
            &&& e.is_rtl == ((h.lookup_flag & 0x0001) != 0)
            &&& e.is_reversed == (is_subst && spec_is_reversed_or_false(
                d,
                h,
                spec_lookup_offset(d, i),
            ))
            &&& e.subtables_count <= h.subtable_offsets.len()
            &&& e.subtables_start + e.subtables_count <= subs.len()
            &&& kept_prefix(
                d,
                is_subst,
                h.lookup_type,
                spec_lookup_offset(d, i),
                h.subtable_offsets,
                h.subtable_offsets.len() as int,
                subs.subrange(e.subtables_start as int, e.subtables_start + e.subtables_count),
            )
        },
        None => false,
    }
}

proof fn lemma_entry_matches_prefix(
    d: Seq<u8>,
    is_subst: bool,
    i: int,
    e: LookupInfo,
    subs1: Seq<SubtableInfo>,
    subs2: Seq<SubtableInfo>,
)
    requires
        entry_matches_lookup(d, is_subst, i, e, subs1),
        subs1.is_prefix_of(subs2),
    ensures
        entry_matches_lookup(d, is_subst, i, e, subs2),
{
    assert(subs2.subrange(e.subtables_start as int, e.subtables_start + e.subtables_count) =~= subs1.subrange(
        e.subtables_start as int,
        e.subtables_start + e.subtables_count,
    ));
}

impl LookupCache {
    /// Classifies one subtable of a lookup and appends its record: the
    /// extension indirection is unwrapped one level, unsupported pairs
    /// are refused, and the primary coverage feeds the subtable's digest,
    /// which is folded into the lookup's. On failure nothing changes;
    /// success holds exactly when the subtable is kept.
    #[verifier::loop_isolation(false)]
    fn process_subtable(
        table: &[u8],
        is_subst: bool,
        kind: u16,
        so64: u64,
        subtables: &mut Vec<SubtableInfo>,
        entry: &mut LookupInfo,
    ) -> (r: Result<(), ReadError>)
        requires
            so64 < 0x40000,
            old(entry).subtables_count < 0xFFFF,
        ensures
            r.is_ok() == spec_subtable_kept(table@, is_subst, kind, so64 as int),
            r is Err ==> final(subtables)@ == old(subtables)@ && *final(entry) == *old(entry),
            r is Ok ==> {
                &&& final(subtables)@.len() == old(subtables)@.len() + 1
                &&& old(subtables)@.is_prefix_of(final(subtables)@)
                &&& final(entry).subtables_count == old(entry).subtables_count + 1
                &&& final(entry).state == old(entry).state
                &&& final(entry).props == old(entry).props
                &&& final(entry).is_subst == old(entry).is_subst
                &&& final(entry).is_rtl == old(entry).is_rtl
                &&& final(entry).is_reversed == old(entry).is_reversed
                &&& final(entry).subtables_start == old(entry).subtables_start
                &&& (forall|h: u16|
                    old(entry).digest.spec_may_have(h) ==> final(entry).digest.spec_may_have(h))
                &&& sub_digests_cover(table@, final(subtables)@.last(), final(entry).digest)
                &&& subinfo_matches(table@, is_subst, kind, so64 as int, final(subtables)@.last())
            },
    {
        let ghost d = table@;
        let mut kind2 = kind;
        let mut so = so64;
        if (is_subst && kind == 7) || (!is_subst && kind == 9) {
            let (t2, o2) = crate::subtable::parse_extension(table, so64 as usize)?;
            if (is_subst && t2 == 7) || (!is_subst && t2 == 9) {
                // A wrapper wrapping another wrapper is malformed data.
                proof {
                    assert(spec_resolve(d, so64 as int, is_subst, kind) is None);
                }
                return Err(ReadError::MalformedData);
            }
            kind2 = t2;
            so = so64 + o2 as u64;
        }
        proof {
            assert(!spec_is_ext(is_subst, kind2));
            assert(spec_resolve(d, so64 as int, is_subst, kind) == Some((so as int, kind2)));
        }
        // The allow-list of supported pairs.
        let supported = if is_subst {
            kind2 == 1 || kind2 == 2 || kind2 == 3 || kind2 == 4 || kind2 == 6 || kind2 == 8
        } else {
            kind2 == 1 || kind2 == 2 || kind2 == 3 || kind2 == 4 || kind2 == 5 || kind2 == 6
                || kind2 == 8
        };
        if !supported {
            return Err(ReadError::MalformedData);
        }
        if so > u32::MAX as u64 {
            return Err(ReadError::OutOfBounds);
        }
        let offset32 = so as u32;
        let st = match Subtable::read(table, so as usize, is_subst, kind2) {
            Ok(st) => st,
            Err(err) => {
                proof {
                    assert(!direct_ok(d, so as int, is_subst, kind2));
                }
                return Err(err);
            },
        };
        let p = match st.coverage_and_offset() {
            Ok(p) => p,
            Err(err) => {
                proof {
                    lemma_coverage_and_offset_bridge(d, so as int, is_subst, kind2, st);
                    assert(!primary_coverage_ok(d, so as int, is_subst, kind2));
                }
                return Err(err);
            },
        };
        let cov = p.0;
        let cov_off = p.1;
        proof {
            lemma_coverage_and_offset_bridge(d, so as int, is_subst, kind2, st);
            assert(kind2 <= 8);
            assert(spec_subtable_kept(d, is_subst, kind, so64 as int));
        }
        let mut si = SubtableInfo {
            offset: offset32,
            coverage_offset: cov_off,
            is_subst,
            lookup_type: kind2 as u8,
            digest: GlyphDigest::new(),
        };
        add_coverage_to_digest(cov, &mut si.digest);
        entry.digest.union_with(&si.digest);
        proof {
            assert(spec_parse_coverage(d, si.offset + si.coverage_offset) == Some(cov@));
            assert forall|g: u16| subinfo_covers(d, si, g) implies si.digest.spec_may_have(g)
                && entry.digest.spec_may_have(g) by {
                assert(cov_covers(cov@, g));
            }
            assert(sub_digests_cover(d, si, entry.digest));
            assert(subinfo_matches(d, is_subst, kind, so64 as int, si));
        }
        subtables.push(si);
        entry.subtables_count = entry.subtables_count + 1;
        Ok(())
    }

    /// Returns the cached entry for `index`, building it first when it is
    /// still vacant.
    ///
    /// A repeated call is idempotent: a prior ready or failed entry is
    /// returned at once, without re-parsing, and a failed entry is never
    /// retried. The entry's state is set to its failure value before any
    /// parsing, so a reentrant call during construction observes a
    /// definite error rather than recursing. Per-subtable failures are
    /// swallowed: a malformed subtable is dropped and the lookup still
    /// becomes ready.
    #[verifier::loop_isolation(false)]
    #[verifier::rlimit(60)]
    pub fn get_or_create<H: LookupHost>(&mut self, cx: &H, index: u16) -> (r: Result<
        LookupInfo,
        ReadError,
    >)
        requires
            old(self).wf_for(cx.spec_table()),
        ensures
            final(self).wf_for(cx.spec_table()),
            final(self).lookups@.len() == if old(self).lookups@.len() >= index + 1 {
                old(self).lookups@.len() as int
            } else {
                index + 1
            },
            forall|j: int|
                0 <= j < old(self).lookups@.len() && j != index ==> final(self).lookups@[j]
                    == old(self).lookups@[j],
            forall|j: int|
                old(self).lookups@.len() <= j < final(self).lookups@.len() && j != index
                    ==> final(self).lookups@[j] == LookupInfo::spec_vacant(),
            old(self).subtables@.is_prefix_of(final(self).subtables@),
            (index as int) < old(self).lookups@.len() && old(self).lookups@[index as int].state
                != LookupState::Vacant ==> final(self).lookups@ == old(self).lookups@ && final(self).subtables@ == old(self).subtables@ && r == Ok::<LookupInfo, ReadError>(
                old(self).lookups@[index as int],
            ),
            final(self).lookups@[index as int].state != LookupState::Vacant,
            r matches Ok(e) ==> e == final(self).lookups@[index as int],
            ((index as int) >= old(self).lookups@.len()
                || old(self).lookups@[index as int].state == LookupState::Vacant) ==> {
                let d = cx.spec_table();
                let i = index as int;
                &&& r.is_ok() == build_ok(d, i, old(self).subtables@.len() as int)
                &&& (r is Err ==> final(self).lookups@[i].state == LookupState::Error && final(self).subtables@ == old(self).subtables@)
                &&& (r matches Ok(e) ==> e.subtables_start as int == old(self).subtables@.len()
                    && e.subtables_start + e.subtables_count == final(self).subtables@.len()
                    && entry_matches_lookup(d, cx.spec_is_subst(), i, e, final(self).subtables@))
            },
    {
        let ghost d = cx.spec_table();
        let ghost n0 = old(self).lookups@.len();
        let idx = index as usize;
        if self.lookups.len() < idx + 1 {
            while self.lookups.len() < idx + 1
                invariant
                    n0 <= self.lookups@.len() <= idx + 1,
                    self.lookups@.subrange(0, n0 as int) == old(self).lookups@,
                    forall|j: int|
                        n0 <= j < self.lookups@.len() ==> self.lookups@[j]
                            == LookupInfo::spec_vacant(),
                    self.subtables@ == old(self).subtables@,
                decreases idx + 1 - self.lookups@.len(),
            {
                self.lookups.push(LookupInfo::vacant());
            }
        }
        proof {
            if self.lookups@.len() == n0 {
                assert(self.lookups@.subrange(0, n0 as int) =~= old(self).lookups@);
            }
            assert(forall|j: int|
                0 <= j < n0 ==> #[trigger] self.lookups@[j] == old(self).lookups@[j]);
        }
        let e0 = self.lookups[idx];
        match e0.state {
            LookupState::Vacant => {},
            _ => {
                return Ok(e0);
            },
        }
        // Set the failure state before any parsing, so a reentrant call
        // observes a terminal error instead of recursing.
        let mut e = LookupInfo::vacant();
        e.state = LookupState::Error;
        self.lookups[idx] = e;
        proof {
            assert forall|j: int|
                0 <= j < self.lookups@.len() implies entry_wf(
                #[trigger] self.lookups@[j],
                self.subtables@,
                d,
            ) by {
                if j == idx as int {
                    assert(self.lookups@[j].state == LookupState::Error);
                } else if j < n0 {
                    assert(self.lookups@[j] == old(self).lookups@[j]);
                    assert(entry_wf(old(self).lookups@[j], old(self).subtables@, d));
                } else {
                    assert(self.lookups@[j] == LookupInfo::spec_vacant());
                }
            }
            assert(self.wf_for(d));
        }
        let data = match cx.lookup_data(index) {
            Ok(x) => x,
            Err(err) => {
                return Err(err);
            },
        };
        e.is_subst = data.is_subst;
        let header = match parse_lookup(data.table_data, data.offset) {
            Ok(h) => h,
            Err(err) => {
                return Err(err);
            },
        };
        e.props = header.lookup_flag as u32;
        match header.mark_filtering_set {
            Some(m) => {
                e.props = e.props | ((m as u32) << 16);
            },
            None => {},
        }
        e.is_rtl = header.lookup_flag & 0x0001 != 0;
        if data.is_subst {
            e.is_reversed = match is_reversed(data.table_data, &header, data.offset) {
                Some(b) => b,
                None => false,
            };
        }
        if self.subtables.len() > u32::MAX as usize {
            return Err(ReadError::MalformedData);
        }
        e.subtables_start = self.subtables.len() as u32;
        e.state = LookupState::Ready;
        let ghost subs0 = self.subtables@;
        let ghost lookups_mid = self.lookups@;
        let ghost e_pre = e;
        proof {
            assert(header@.subtable_offsets.len() <= 0xFFFF);
        }
        let mut i2: usize = 0;
        while i2 < header.subtable_offsets.len()
            invariant
                self.lookups@ == lookups_mid,
                subs0.is_prefix_of(self.subtables@),
                e.state == e_pre.state,
                e.props == e_pre.props,
                e.is_subst == e_pre.is_subst,
                e.is_rtl == e_pre.is_rtl,
                e.is_reversed == e_pre.is_reversed,
                e.subtables_start == e_pre.subtables_start,
                e.subtables_start as int == subs0.len(),
                e.subtables_count as int == self.subtables@.len() - subs0.len(),
                e.subtables_count <= i2,
                i2 <= header.subtable_offsets@.len(),
                forall|k: int|
                    subs0.len() <= k < self.subtables@.len() ==> sub_digests_cover(
                        d,
                        #[trigger] self.subtables@[k],
                        e.digest,
                    ),
                kept_prefix(
                    d,
                    data.is_subst,
                    header.lookup_type,
                    data.offset as int,
                    header.subtable_offsets@,
                    i2 as int,
                    self.subtables@.subrange(subs0.len() as int, self.subtables@.len() as int),
                ),
            decreases header.subtable_offsets@.len() - i2,
        {
            let sub_rel = header.subtable_offsets[i2];
            let so64 = (sub_rel as u64) + (data.offset as u64);
            let ghost subs_before = self.subtables@;
            let ghost e_before = e;
            let pr = Self::process_subtable(
                data.table_data,
                data.is_subst,
                header.lookup_type,
                so64,
                &mut self.subtables,
                &mut e,
            );
            proof {
                assert(so64 as int == data.offset + header.subtable_offsets@[i2 as int]);
                if pr is Ok {
                    assert forall|k: int|
                        subs0.len() <= k < self.subtables@.len() implies sub_digests_cover(
                        d,
                        #[trigger] self.subtables@[k],
                        e.digest,
                    ) by {
                        if k < subs_before.len() {
                            assert(self.subtables@[k] == subs_before[k]);
                            lemma_sub_digests_cover_mono(
                                d,
                                subs_before[k],
                                e_before.digest,
                                e.digest,
                            );
                        } else {
                            assert(self.subtables@[k] == self.subtables@.last());
                        }
                    }
                    let prev = subs_before.subrange(subs0.len() as int, subs_before.len() as int);
                    let cur = self.subtables@.subrange(
                        subs0.len() as int,
                        self.subtables@.len() as int,
                    );
                    assert(cur.drop_last() =~= prev);
                    assert(cur.last() == self.subtables@.last());
                    assert(spec_subtable_kept(d, data.is_subst, header.lookup_type, so64 as int));
                    assert(kept_prefix(
                        d,
                        data.is_subst,
                        header.lookup_type,
                        data.offset as int,
                        header.subtable_offsets@,
                        i2 + 1,
                        cur,
                    ));
                } else {
                    assert(!spec_subtable_kept(d, data.is_subst, header.lookup_type, so64 as int));
                    assert(kept_prefix(
                        d,
                        data.is_subst,
                        header.lookup_type,
                        data.offset as int,
                        header.subtable_offsets@,
                        i2 + 1,
                        self.subtables@.subrange(
                            subs0.len() as int,
                            self.subtables@.len() as int,
                        ),
                    ));
                }
            }
            i2 += 1;
        }
        self.lookups[idx] = e;
        proof {
            assert forall|j: int|
                0 <= j < self.lookups@.len() implies entry_wf(
                #[trigger] self.lookups@[j],
                self.subtables@,
                d,
            ) by {
                if j == idx as int {
                    assert(self.lookups@[j] == e);
                } else {
                    assert(self.lookups@[j] == lookups_mid[j]);
                    if j < old(self).lookups@.len() {
                        assert(lookups_mid[j] == old(self).lookups@[j]);
                        assert(entry_wf(old(self).lookups@[j], old(self).subtables@, d));
                        lemma_entry_wf_prefix(
                            old(self).lookups@[j],
                            old(self).subtables@,
                            self.subtables@,
                            d,
                        );
                    } else {
                        assert(lookups_mid[j] == LookupInfo::spec_vacant());
                    }
                }
            }
        }
        Ok(e)
    }

    /// Drops all entries, then builds every lookup the host declares;
    /// per-index failures are swallowed so one malformed lookup never
    /// blocks the rest.
    #[verifier::loop_isolation(false)]
    pub fn create_all<H: LookupHost>(&mut self, host: &H)
        ensures
            final(self).wf_for(host.spec_table()),
            final(self).lookups@.len() == spec_lookup_count(host.spec_table()),
            forall|j: int|
                0 <= j < final(self).lookups@.len() ==> final(self).lookups@[j].state
                    != LookupState::Vacant,
            forall|j: int|
                0 <= j < final(self).lookups@.len() ==> ((#[trigger] final(self).lookups@[j].state
                    == LookupState::Ready) <==> spec_parse_lookup(
                    host.spec_table(),
                    spec_lookup_offset(host.spec_table(), j),
                ) is Some),
            forall|j: int|
                0 <= j < final(self).lookups@.len() && final(self).lookups@[j].state
                    == LookupState::Ready ==> entry_matches_lookup(
                    host.spec_table(),
                    host.spec_is_subst(),
                    j,
                    #[trigger] final(self).lookups@[j],
                    final(self).subtables@,
                ),
    {
        let ghost d = host.spec_table();
        self.clear();
        let count = host.lookup_count();
        let mut i: u16 = 0;
        while i < count
            invariant
                i <= count,
                count as int == spec_lookup_count(d),
                self.wf_for(d),
                self.lookups@.len() == if i == 0 {
                    0int
                } else {
                    i as int
                },
                self.subtables@.len() <= (i as int) * 0xFFFF,
                forall|j: int|
                    0 <= j < i ==> self.lookups@[j].state != LookupState::Vacant,
                forall|j: int|
                    0 <= j < i ==> ((#[trigger] self.lookups@[j].state == LookupState::Ready)
                        <==> spec_parse_lookup(d, spec_lookup_offset(d, j)) is Some),
                forall|j: int|
                    0 <= j < i && self.lookups@[j].state == LookupState::Ready
                        ==> entry_matches_lookup(
                        d,
                        host.spec_is_subst(),
                        j,
                        #[trigger] self.lookups@[j],
                        self.subtables@,
                    ),
            decreases count - i,
        {
            let ghost lookups_before = self.lookups@;
            let ghost subs_before = self.subtables@;
            let r = self.get_or_create(host, i);
            proof {
                assert(subs_before.len() <= 0xFFFF * 0xFFFF < u32::MAX);
                assert(r.is_ok() == build_ok(d, i as int, subs_before.len() as int));
                if r is Ok {
                    // The appended records are the new entry's count, a u16.
                    assert(self.subtables@.len() - subs_before.len() <= 0xFFFF);
                } else {
                    assert(self.subtables@ == subs_before);
                }
                assert forall|j: int|
                    0 <= j < i + 1 && self.lookups@[j].state == LookupState::Ready
                        implies entry_matches_lookup(
                    d,
                    host.spec_is_subst(),
                    j,
                    #[trigger] self.lookups@[j],
                    self.subtables@,
                ) by {
                    if j < i {
                        assert(self.lookups@[j] == lookups_before[j]);
                        lemma_entry_matches_prefix(
                            d,
                            host.spec_is_subst(),
                            j,
                            lookups_before[j],
                            subs_before,
                            self.subtables@,
                        );
                    }
                }
            }
            i += 1;
        }
    }
}

/// For every glyph a cached subtable's primary coverage holds, the owning
/// lookup's digest — and the subtable's own — answer "possibly present":
/// the digests give no false negative.
pub proof fn lemma_digest_no_false_negative(
    cache: LookupCache,
    d: Seq<u8>,
    i: int,
    k: int,
    g: u16,
)
    requires
        cache.wf_for(d),
        0 <= i < cache.lookups@.len(),
        cache.lookups@[i].state == LookupState::Ready,
        cache.lookups@[i].subtables_start <= k < cache.lookups@[i].subtables_start
            + cache.lookups@[i].subtables_count,
        subinfo_covers(d, cache.subtables@[k], g),
    ensures
        cache.lookups@[i].digest.spec_may_have(g),
        cache.subtables@[k].digest.spec_may_have(g),
{
    assert(entry_wf(cache.lookups@[i], cache.subtables@, d));
    assert(sub_digests_cover(d, cache.subtables@[k], cache.lookups@[i].digest));
}

/// A lookup's digest is a bloom-filter superset of each of its cached
/// subtables' digests: every glyph a subtable digest reports possible —
/// false positives included — the lookup digest reports possible too.
pub proof fn lemma_digest_superset(cache: LookupCache, d: Seq<u8>, i: int, k: int, g: u16)
    requires
        cache.wf_for(d),
        0 <= i < cache.lookups@.len(),
        cache.lookups@[i].state == LookupState::Ready,
        cache.lookups@[i].subtables_start <= k < cache.lookups@[i].subtables_start
            + cache.lookups@[i].subtables_count,
        cache.subtables@[k].digest.spec_may_have(g),
    ensures
        cache.lookups@[i].digest.spec_may_have(g),
{
    assert(entry_wf(cache.lookups@[i], cache.subtables@, d));
    assert(sub_digests_cover(d, cache.subtables@[k], cache.lookups@[i].digest));
}

impl SubtableInfo {
    /// The subtable's primary coverage table, decoded from the table
    /// bytes at the recorded offsets.
    pub fn primary_coverage_table(&self, table_data: &[u8]) -> (r: Result<
        CoverageTable,
        ReadError,
    >)
        ensures
            match r {
                Ok(c) => spec_parse_coverage(
                    table_data@,
                    self.offset + self.coverage_offset,
                ) == Some(c@),
                Err(_) => spec_parse_coverage(table_data@, self.offset + self.coverage_offset)
                    is None,
            },
    {
        let dlen = table_data.len();
        let off64 = (self.offset as u64) + (self.coverage_offset as u64);
        if off64 > dlen as u64 {
            return Err(ReadError::OutOfBounds);
        }
        crate::coverage::parse_coverage(table_data, off64 as usize)
    }

    /// Coverage index of `glyph_id` in the subtable's primary coverage.
    pub fn primary_coverage(&self, table_data: &[u8], glyph_id: u16) -> (r: Option<u16>)
        ensures
            r == match spec_parse_coverage(table_data@, self.offset + self.coverage_offset) {
                Some(cv) => cov_get(cv, glyph_id),
                None => None::<u16>,
            },
    {
        match self.primary_coverage_table(table_data) {
            Ok(c) => c.get(glyph_id),
            Err(_) => None,
        }
    }

    /// Re-decodes the subtable's typed form from the table bytes.
    pub fn materialize(&self, table_data: &[u8]) -> (r: Result<Subtable, ReadError>)
        ensures
            r.is_ok() == (spec_resolve(
                table_data@,
                self.offset as int,
                self.is_subst,
                self.lookup_type as u16,
            ) matches Some(p) && direct_ok(table_data@, p.0, self.is_subst, p.1)),
            r matches Ok(st) ==> spec_resolve(
                table_data@,
                self.offset as int,
                self.is_subst,
                self.lookup_type as u16,
            ) matches Some(p) && tag_matches(st, self.is_subst, p.1, u16_at(table_data@, p.0))
                && cov_fields_ok(table_data@, p.0, st),
    {
        Subtable::read(table_data, self.offset as usize, self.is_subst, self.lookup_type as u16)
    }
}

} // verus!
