//! Static parameters of the deployment platform: pointer width, the
//! per-width scalar alignment table (which accounts for platforms where a
//! wide scalar is aligned below its size), and the default discriminant
//! width for tagged unions.

use vstd::prelude::*;
use crate::align::{is_pow2, is_pow2_u64};

verus! {

/// Platform parameters, constructed once and read by every layout query.
/// All widths and alignments are in bytes.
pub struct TargetProfile {
    /// Size and alignment of a thin pointer.
    pub pointer_width: u64,
    /// Alignment table for scalars: pairs of (scalar width, alignment).
    /// The first entry with a matching width decides the alignment.
    pub scalar_alignments: Vec<(u64, u64)>,
    /// Discriminant width used for a tagged union that does not request
    /// an explicit width of its own.
    pub default_discriminant_width: u64,
}

/// A well-formed alignment table entry: the width is positive and the
/// alignment is a power of two dividing the width, so that a scalar's size
/// is always a multiple of its alignment.
pub open spec fn entry_wf(e: (u64, u64)) -> bool {
    &&& e.0 >= 1
    &&& is_pow2(e.1 as int)
    &&& e.0 as int % e.1 as int == 0
}

/// A well-formed profile: the pointer width is a power of two, the default
/// discriminant width is positive, and every table entry is well formed.
pub open spec fn profile_wf(p: TargetProfile) -> bool {
    &&& is_pow2(p.pointer_width as int)
    &&& p.default_discriminant_width >= 1
    &&& forall|i: int|
        0 <= i < p.scalar_alignments@.len() ==> entry_wf(#[trigger] p.scalar_alignments@[i])
}

/// The alignment the table assigns to a scalar of width `width`: the second
/// component of the first entry whose first component is `width`, if any.
pub open spec fn scalar_align_in(entries: Seq<(u64, u64)>, width: u64) -> Option<u64>
    decreases entries.len(),
{
    if entries.len() == 0 {
        None
    } else if entries[0].0 == width {
        Some(entries[0].1)
    } else {
        scalar_align_in(entries.drop_first(), width)
    }
}

/// The alignment a profile assigns to a scalar of width `width`.
pub open spec fn scalar_align_of(p: TargetProfile, width: u64) -> Option<u64> {
    scalar_align_in(p.scalar_alignments@, width)
}

/// A successful table lookup returns one of the table's entries.
pub proof fn lemma_scalar_align_found(entries: Seq<(u64, u64)>, width: u64)
    requires
        scalar_align_in(entries, width) is Some,
    ensures
        exists|i: int|
            0 <= i < entries.len() && #[trigger] entries[i] == (
            width,
            scalar_align_in(entries, width)->Some_0,
            ),
    decreases entries.len(),
{
    if entries[0].0 == width {
        assert(entries[0] == (width, scalar_align_in(entries, width)->Some_0));
    } else {
        lemma_scalar_align_found(entries.drop_first(), width);
        let j = choose|j: int|
            0 <= j < entries.drop_first().len() && #[trigger] entries.drop_first()[j] == (
            width,
            scalar_align_in(entries, width)->Some_0,
            );
        assert(entries[j + 1] == entries.drop_first()[j]);
    }
}

/// On a well-formed profile, a found scalar alignment is a power of two
/// that divides the scalar's width.
pub proof fn lemma_scalar_align_wf(p: TargetProfile, width: u64)
    requires
        profile_wf(p),
        scalar_align_of(p, width) is Some,
    ensures
        is_pow2(scalar_align_of(p, width)->Some_0 as int),
        width as int % scalar_align_of(p, width)->Some_0 as int == 0,
        width >= 1,
{
    lemma_scalar_align_found(p.scalar_alignments@, width);
}

impl TargetProfile {
    /// Builds a profile after validating its parameters; returns `None`
    /// when they do not describe a well-formed platform.
    pub fn new(
        pointer_width: u64,
        scalar_alignments: Vec<(u64, u64)>,
        default_discriminant_width: u64,
    ) -> (r: Option<TargetProfile>)
        ensures
            match r {
                Some(p) => {
                    &&& profile_wf(p)
                    &&& p.pointer_width == pointer_width
                    &&& p.scalar_alignments@ == scalar_alignments@
                    &&& p.default_discriminant_width == default_discriminant_width
                },
                None => !profile_wf(
                    TargetProfile { pointer_width, scalar_alignments, default_discriminant_width },
                ),
            },
    {
        if !is_pow2_u64(pointer_width) || default_discriminant_width == 0 {
            return None;
        }
        let mut i: usize = 0;
        while i < scalar_alignments.len()
            invariant
                i <= scalar_alignments.len(),
                forall|j: int| 0 <= j < i ==> entry_wf(#[trigger] scalar_alignments@[j]),
            decreases scalar_alignments.len() - i,
        {
            let (w, a) = scalar_alignments[i];
            if w == 0 || !is_pow2_u64(a) || w % a != 0 {
                proof {
                    let p = TargetProfile {
                        pointer_width,
                        scalar_alignments,
                        default_discriminant_width,
                    };
                    assert(!entry_wf(p.scalar_alignments@[i as int]));
                }
                return None;
            }
            i += 1;
        }
        Some(TargetProfile { pointer_width, scalar_alignments, default_discriminant_width })
    }

    /// Looks up the alignment of a scalar of width `width` in the table.
    pub fn scalar_alignment(&self, width: u64) -> (r: Option<u64>)
        ensures
            r == scalar_align_of(*self, width),
    {
        let mut i: usize = 0;
        proof {
            assert(self.scalar_alignments@.skip(0) =~= self.scalar_alignments@);
        }
        while i < self.scalar_alignments.len()
            invariant
                i <= self.scalar_alignments@.len(),
                scalar_align_of(*self, width) == scalar_align_in(
                    self.scalar_alignments@.skip(i as int),
                    width,
                ),
            decreases self.scalar_alignments@.len() - i,
        {
            let (w, a) = self.scalar_alignments[i];
            proof {
                assert(self.scalar_alignments@.skip(i as int).drop_first() =~= self
                    .scalar_alignments@
                    .skip(i as int + 1));
            }
            if w == width {
                return Some(a);
            }
            i += 1;
        }
        None
    }
}

} // verus!
