//! Approximate glyph-id set with no false negatives.
//!
//! A digest is three bloom-filter components, each a 64-bit mask indexed by
//! a different shift of the glyph id. Inserting a glyph or a glyph range can
//! only set bits, so membership queries never report an inserted glyph
//! absent; unrelated glyphs may collide and report present.

use vstd::prelude::*;

verus! {

/// Bit index a glyph selects in the component with the given shift.
pub open spec fn digest_bit(g: u16, shift: u64) -> u64 {
    ((g as u64) >> shift) & 63
}

/// Whether a component mask holds the bit for glyph `g`.
pub open spec fn mask_covers(mask: u64, g: u16, shift: u64) -> bool {
    mask & (1u64 << digest_bit(g, shift)) != 0
}

/// Approximate glyph-id set; queries may report false positives but never
/// false negatives.
#[derive(Clone, Copy, Debug, PartialEq, Eq, Structural)]
pub struct GlyphDigest {
    /// Component keyed on the glyph id itself.
    pub mask_fine: u64,
    /// Component keyed on the glyph id shifted right by 4.
    pub mask_mid: u64,
    /// Component keyed on the glyph id shifted right by 9.
    pub mask_coarse: u64,
}

/// A mask built by `|` keeps every bit of both operands.
proof fn lemma_or_covers(a: u64, b: u64, h: u16, shift: u64)
    by (bit_vector)
    ensures
        mask_covers(a, h, shift) ==> mask_covers(a | b, h, shift),
        mask_covers(b, h, shift) ==> mask_covers(a | b, h, shift),
{
}

/// Sets the bit for one glyph in a component mask.
fn mask_insert(mask: u64, g: u16, shift: u64) -> (r: u64)
    requires
        shift < 64,
    ensures
        mask_covers(r, g, shift),
        forall|h: u16| mask_covers(mask, h, shift) ==> mask_covers(r, h, shift),
{
    let b = ((g as u64) >> shift) & 63;
    proof {
        assert(b < 64) by (bit_vector)
            requires
                b == ((g as u64) >> shift) & 63,
        ;
    }
    let r = mask | (1u64 << b);
    proof {
        assert((mask | (1u64 << b)) & (1u64 << b) != 0) by (bit_vector)
            requires
                b < 64,
        ;
        assert forall|h: u16| mask_covers(mask, h, shift) implies mask_covers(r, h, shift) by {
            let hb = digest_bit(h, shift);
            assert(mask & (1u64 << hb) != 0 ==> (mask | (1u64 << b)) & (1u64 << hb) != 0)
                by (bit_vector);
        }
    }
    r
}

/// Sets the bits for every glyph in `first..=last` in a component mask,
/// saturating the mask when the range spans 64 buckets or more.
fn mask_insert_range(mask: u64, first: u16, last: u16, shift: u64) -> (r: u64)
    requires
        shift < 64,
        first <= last,
    ensures
        forall|g: u16| first <= g <= last ==> mask_covers(r, g, shift),
        forall|h: u16| mask_covers(mask, h, shift) ==> mask_covers(r, h, shift),
{
    let a = (first as u64) >> shift;
    let b = (last as u64) >> shift;
    proof {
        assert(a <= b && b < 0x10000) by (bit_vector)
            requires
                first <= last,
                a == (first as u64) >> shift,
                b == (last as u64) >> shift,
        ;
    }
    if b - a >= 63 {
        let r = u64::MAX;
        proof {
            assert forall|g: u16| first <= g <= last implies mask_covers(r, g, shift) by {
                let gb = digest_bit(g, shift);
                assert(u64::MAX & (1u64 << gb) != 0) by (bit_vector)
                    requires
                        gb == ((g as u64) >> shift) & 63,
                ;
            }
            assert forall|h: u16| mask_covers(mask, h, shift) implies mask_covers(r, h, shift) by {
                let hb = digest_bit(h, shift);
                assert(u64::MAX & (1u64 << hb) != 0) by (bit_vector)
                    requires
                        hb == ((h as u64) >> shift) & 63,
                ;
            }
        }
        r
    } else {
        let mut r = mask;
        let mut bk = a;
        while bk <= b
            invariant
                a <= bk <= b + 1,
                b < 0x10000,
                forall|c: u64| a <= c < bk ==> r & (1u64 << (c & 63)) != 0,
                forall|h: u16| mask_covers(mask, h, shift) ==> mask_covers(r, h, shift),
            decreases b + 1 - bk,
        {
            let bit = bk & 63;
            proof {
                assert(bk & 63 < 64) by (bit_vector);
            }
            let r2 = r | (1u64 << bit);
            proof {
                assert((r | (1u64 << (bk & 63))) & (1u64 << (bk & 63)) != 0) by (bit_vector);
                assert forall|c: u64| a <= c < bk + 1 implies r2 & (1u64 << (c & 63)) != 0 by {
                    if c < bk {
                        assert(r & (1u64 << (c & 63)) != 0);
                        assert(r & (1u64 << (c & 63)) != 0 ==> (r | (1u64 << (bk & 63))) & (1u64
                            << (c & 63)) != 0) by (bit_vector);
                    } else {
                        assert(c == bk);
                    }
                }
                assert forall|h: u16| mask_covers(mask, h, shift) implies mask_covers(r2, h, shift)
                    by {
                    let hb = digest_bit(h, shift);
                    assert(r & (1u64 << hb) != 0 ==> (r | (1u64 << (bk & 63))) & (1u64 << hb) != 0)
                        by (bit_vector);
                }
            }
            r = r2;
            bk = bk + 1;
        }
        proof {
            assert forall|g: u16| first <= g <= last implies mask_covers(r, g, shift) by {
                let c = (g as u64) >> shift;
                assert(a <= c <= b) by (bit_vector)
                    requires
                        first <= g <= last,
                        a == (first as u64) >> shift,
                        b == (last as u64) >> shift,
                        c == (g as u64) >> shift,
                ;
                assert(r & (1u64 << (c & 63)) != 0);
                assert(digest_bit(g, shift) == c & 63);
            }
        }
        r
    }
}

impl GlyphDigest {
    /// Whether the digest may hold glyph `g`: true for every inserted
    /// glyph, possibly true for others.
    pub open spec fn spec_may_have(self, g: u16) -> bool {
        mask_covers(self.mask_fine, g, 0) && mask_covers(self.mask_mid, g, 4) && mask_covers(
            self.mask_coarse,
            g,
            9,
        )
    }

    /// The empty digest.
    pub fn new() -> (r: GlyphDigest)
        ensures
            r == (GlyphDigest { mask_fine: 0u64, mask_mid: 0u64, mask_coarse: 0u64 }),
    {
        GlyphDigest { mask_fine: 0, mask_mid: 0, mask_coarse: 0 }
    }

    /// Inserts one glyph id; every previously reported member stays a
    /// member.
    pub fn add(&mut self, glyph: u16)
        ensures
            final(self).spec_may_have(glyph),
            forall|h: u16| old(self).spec_may_have(h) ==> final(self).spec_may_have(h),
    {
        self.mask_fine = mask_insert(self.mask_fine, glyph, 0);
        self.mask_mid = mask_insert(self.mask_mid, glyph, 4);
        self.mask_coarse = mask_insert(self.mask_coarse, glyph, 9);
    }

    /// Inserts every glyph id in `first..=last`; an empty range (first >
    /// last) inserts nothing.
    pub fn add_range(&mut self, first: u16, last: u16)
        ensures
            forall|g: u16| first <= g <= last ==> final(self).spec_may_have(g),
            forall|h: u16| old(self).spec_may_have(h) ==> final(self).spec_may_have(h),
    {
        if first <= last {
            self.mask_fine = mask_insert_range(self.mask_fine, first, last, 0);
            self.mask_mid = mask_insert_range(self.mask_mid, first, last, 4);
            self.mask_coarse = mask_insert_range(self.mask_coarse, first, last, 9);
        }
    }

    /// Folds another digest into this one: afterwards every possible
    /// member of either digest is a possible member of this one.
    pub fn union_with(&mut self, other: &GlyphDigest)
        ensures
            forall|h: u16| old(self).spec_may_have(h) ==> final(self).spec_may_have(h),
            forall|h: u16| other.spec_may_have(h) ==> final(self).spec_may_have(h),
    {
        let ghost pre = *self;
        let f0 = self.mask_fine;
        let m0 = self.mask_mid;
        let c0 = self.mask_coarse;
        self.mask_fine = f0 | other.mask_fine;
        self.mask_mid = m0 | other.mask_mid;
        self.mask_coarse = c0 | other.mask_coarse;
        proof {
            assert forall|h: u16|
                (pre.spec_may_have(h) || other.spec_may_have(h)) implies self.spec_may_have(
                h,
            ) by {
                lemma_or_covers(f0, other.mask_fine, h, 0);
                lemma_or_covers(m0, other.mask_mid, h, 4);
                lemma_or_covers(c0, other.mask_coarse, h, 9);
            }
        }
    }

    /// Approximate membership test: never false for an inserted glyph.
    pub fn may_have(&self, glyph: u16) -> (r: bool)
        ensures
            r == self.spec_may_have(glyph),
    {
        let b0 = ((glyph as u64) >> 0u64) & 63;
        let b1 = ((glyph as u64) >> 4u64) & 63;
        let b2 = ((glyph as u64) >> 9u64) & 63;
        proof {
            assert(b0 < 64 && b1 < 64 && b2 < 64) by (bit_vector)
                requires
                    b0 == ((glyph as u64) >> 0u64) & 63,
                    b1 == ((glyph as u64) >> 4u64) & 63,
                    b2 == ((glyph as u64) >> 9u64) & 63,
            ;
        }
        self.mask_fine & (1u64 << b0) != 0 && self.mask_mid & (1u64 << b1) != 0
            && self.mask_coarse & (1u64 << b2) != 0
    }
}

} // verus!
