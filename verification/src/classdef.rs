//! Class-definition tables: a mapping from glyph id to a small integer
//! class, decoded from one of the two standard encodings. Glyphs the table
//! does not mention fall into class 0.

use vstd::prelude::*;

use crate::raw::{read_u16, u16_at, ReadError};

verus! {

/// One record of a range-list class definition.
#[derive(Clone, Copy, Debug, PartialEq, Eq, Structural)]
pub struct ClassRange {
    /// First glyph id of the range.
    pub start: u16,
    /// Last glyph id of the range, inclusive.
    pub end: u16,
    /// Class assigned to every glyph of the range.
    pub class: u16,
}

/// A decoded class-definition table.
#[derive(Clone, Debug, PartialEq, Eq)]
pub enum ClassDef {
    /// Dense array of classes for a contiguous run of glyph ids.
    Format1 {
        /// First glyph id the array describes.
        start_glyph: u16,
        /// Class of each glyph from `start_glyph` on.
        classes: Vec<u16>,
    },
    /// Range list.
    Format2 {
        /// The listed glyph ranges with their classes.
        ranges: Vec<ClassRange>,
    },
}

/// Mathematical model of a class definition.
pub enum ClassDefView {
    Direct(u16, Seq<u16>),
    Ranges(Seq<ClassRange>),
}

impl View for ClassDef {
    type V = ClassDefView;

    open spec fn view(&self) -> ClassDefView {
        match self {
            ClassDef::Format1 { start_glyph, classes } => ClassDefView::Direct(
                *start_glyph,
                classes@,
            ),
            ClassDef::Format2 { ranges } => ClassDefView::Ranges(ranges@),
        }
    }
}

/// Class of `g` under a dense class array starting at `start`.
pub open spec fn direct_class_of(start: u16, cs: Seq<u16>, g: u16) -> u16 {
    if start <= g && g - start < cs.len() {
        cs[g - start]
    } else {
        0
    }
}

/// `i` is the position of the first class range holding `g`.
pub open spec fn is_first_class_range(rs: Seq<ClassRange>, g: u16, i: int) -> bool {
    0 <= i < rs.len() && rs[i].start <= g <= rs[i].end && forall|j: int|
        0 <= j < i ==> !((#[trigger] rs[j]).start <= g <= rs[j].end)
}

/// Class of `g` under a range list: the class of the first range holding
/// it, else 0.
pub open spec fn range_class_of(rs: Seq<ClassRange>, g: u16) -> u16 {
    if exists|i: int| is_first_class_range(rs, g, i) {
        rs[choose|i: int| is_first_class_range(rs, g, i)].class
    } else {
        0
    }
}

/// Class of glyph `g`; 0 where the table does not mention it.
pub open spec fn class_of(v: ClassDefView, g: u16) -> u16 {
    match v {
        ClassDefView::Direct(start, cs) => direct_class_of(start, cs, g),
        ClassDefView::Ranges(rs) => range_class_of(rs, g),
    }
}

/// The class definition encoded at `off`, or `None` where the bytes do
/// not form one.
pub open spec fn spec_parse_class_def(d: Seq<u8>, off: int) -> Option<ClassDefView> {
    if off < 0 || off + 4 > d.len() {
        None
    } else {
        let fmt = u16_at(d, off);
        if fmt == 1 {
            if off + 6 <= d.len() {
                let n = u16_at(d, off + 4) as int;
                if off + 6 + 2 * n <= d.len() {
                    Some(
                        ClassDefView::Direct(
                            u16_at(d, off + 2),
                            Seq::new(n as nat, |j: int| u16_at(d, off + 6 + 2 * j)),
                        ),
                    )
                } else {
                    None
                }
            } else {
                None
            }
        } else if fmt == 2 {
            let n = u16_at(d, off + 2) as int;
            if off + 4 + 6 * n <= d.len() {
                Some(
                    ClassDefView::Ranges(
                        Seq::new(
                            n as nat,
                            |j: int|
                                ClassRange {
                                    start: u16_at(d, off + 4 + 6 * j),
                                    end: u16_at(d, off + 4 + 6 * j + 2),
                                    class: u16_at(d, off + 4 + 6 * j + 4),
                                },
                        ),
                    ),
                )
            } else {
                None
            }
        } else {
            None
        }
    }
}

proof fn lemma_first_class_range_unique(rs: Seq<ClassRange>, g: u16, i: int, k: int)
    requires
        is_first_class_range(rs, g, i),
        is_first_class_range(rs, g, k),
    ensures
        i == k,
{
    if i < k {
        assert(!(rs[i].start <= g <= rs[i].end));
    } else if k < i {
        assert(!(rs[k].start <= g <= rs[k].end));
    }
}

/// Decodes the class definition at `offset`.
#[verifier::loop_isolation(false)]
pub fn parse_class_def(data: &[u8], offset: usize) -> (r: Result<ClassDef, ReadError>)
    ensures
        match r {
            Ok(c) => spec_parse_class_def(data@, offset as int) == Some(c@),
            Err(_) => spec_parse_class_def(data@, offset as int) is None,
        },
{
    if data.len() < 4 || offset > data.len() - 4 {
        return Err(ReadError::OutOfBounds);
    }
    let fmt = read_u16(data, offset);
    if fmt == 1 {
        if data.len() < 6 || offset > data.len() - 6 {
            return Err(ReadError::OutOfBounds);
        }
        let start_glyph = read_u16(data, offset + 2);
        let n = read_u16(data, offset + 4) as usize;
        let avail = data.len() - offset - 6;
        if n > avail / 2 {
            return Err(ReadError::OutOfBounds);
        }
        let mut classes: Vec<u16> = Vec::new();
        let mut i: usize = 0;
        while i < n
            invariant
                i <= n,
                classes@.len() == i as int,
                forall|j: int| 0 <= j < i ==> classes@[j] == u16_at(data@, offset + 6 + 2 * j),
            decreases n - i,
        {
            classes.push(read_u16(data, offset + 6 + 2 * i));
            i += 1;
        }
        proof {
            assert(classes@ =~= Seq::new(n as nat, |j: int| u16_at(data@, offset + 6 + 2 * j)));
        }
        Ok(ClassDef::Format1 { start_glyph, classes })
    } else if fmt == 2 {
        let n = read_u16(data, offset + 2) as usize;
        let avail = data.len() - offset - 4;
        if n > avail / 6 {
            return Err(ReadError::OutOfBounds);
        }
        let mut ranges: Vec<ClassRange> = Vec::new();
        let mut i: usize = 0;
        while i < n
            invariant
                i <= n,
                ranges@.len() == i as int,
                forall|j: int|
                    0 <= j < i ==> ranges@[j] == (ClassRange {
                        start: u16_at(data@, offset + 4 + 6 * j),
                        end: u16_at(data@, offset + 4 + 6 * j + 2),
                        class: u16_at(data@, offset + 4 + 6 * j + 4),
                    }),
            decreases n - i,
        {
            let base = offset + 4 + 6 * i;
            ranges.push(
                ClassRange {
                    start: read_u16(data, base),
                    end: read_u16(data, base + 2),
                    class: read_u16(data, base + 4),
                },
            );
            i += 1;
        }
        proof {
            assert(ranges@ =~= Seq::new(
                n as nat,
                |j: int|
                    ClassRange {
                        start: u16_at(data@, offset + 4 + 6 * j),
                        end: u16_at(data@, offset + 4 + 6 * j + 2),
                        class: u16_at(data@, offset + 4 + 6 * j + 4),
                    },
            ));
        }
        Ok(ClassDef::Format2 { ranges })
    } else {
        Err(ReadError::MalformedData)
    }
}

impl ClassDef {
    /// Class of glyph `glyph`; 0 where the table does not mention it.
    #[verifier::loop_isolation(false)]
    pub fn get(&self, glyph: u16) -> (r: u16)
        ensures
            r == class_of(self@, glyph),
    {
        match self {
            ClassDef::Format1 { start_glyph, classes } => {
                if *start_glyph <= glyph {
                    let rel = (glyph - *start_glyph) as usize;
                    if rel < classes.len() {
                        classes[rel]
                    } else {
                        0
                    }
                } else {
                    0
                }
            },
            ClassDef::Format2 { ranges } => {
                let mut i: usize = 0;
                while i < ranges.len()
                    invariant
                        i <= ranges@.len(),
                        forall|j: int|
                            0 <= j < i ==> !((#[trigger] ranges@[j]).start <= glyph
                                <= ranges@[j].end),
                    decreases ranges@.len() - i,
                {
                    let rr = ranges[i];
                    if rr.start <= glyph && glyph <= rr.end {
                        proof {
                            assert(is_first_class_range(ranges@, glyph, i as int));
                            let k = choose|k: int| is_first_class_range(ranges@, glyph, k);
                            lemma_first_class_range_unique(ranges@, glyph, i as int, k);
                            assert(range_class_of(ranges@, glyph) == ranges@[i as int].class);
                        }
                        return rr.class;
                    }
                    i += 1;
                }
                proof {
                    if exists|k: int| is_first_class_range(ranges@, glyph, k) {
                        let k = choose|k: int| is_first_class_range(ranges@, glyph, k);
                        assert(!(ranges@[k].start <= glyph <= ranges@[k].end));
                    }
                    assert(range_class_of(ranges@, glyph) == 0);
                }
                0
            },
        }
    }
}

} // verus!
