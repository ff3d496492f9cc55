//! The mathematical model of layout: a total specification function that
//! says, for every registered type and policy, exactly which layout a query
//! returns — or exactly which error. The executable engine is verified to
//! agree with this model on every input.

use vstd::prelude::*;
use crate::align::{align_up, is_pow2, max_int};
use crate::descriptor::{Member, PointerKind, TagEncoding, TypeDescriptor, Variant};
use crate::profile::{profile_wf, scalar_align_of, TargetProfile};
use crate::result::{DiscriminantData, LayoutData, LayoutError, LayoutPolicy, MemberData};

verus! {

/// A size or offset the engine can represent.
pub open spec fn fits(x: int) -> bool {
    x <= u64::MAX
}

// ---------------------------------------------------------------------------
// Folds over sequences of member layouts
// ---------------------------------------------------------------------------

/// The alignment of an aggregate: the largest member alignment, or 1 with no
/// members.
pub open spec fn max_align(mls: Seq<LayoutData>) -> int
    decreases mls.len(),
{
    if mls.len() == 0 {
        1
    } else {
        max_int(max_align(mls.drop_last()), mls.last().alignment)
    }
}

/// The sum of the members' sizes.
pub open spec fn sum_sizes(mls: Seq<LayoutData>) -> int
    decreases mls.len(),
{
    if mls.len() == 0 {
        0
    } else {
        sum_sizes(mls.drop_last()) + mls.last().size
    }
}

/// Sequential layout in declaration order: each member starts at the end of
/// the previous ones rounded up to its own alignment; this is where the next
/// free byte lies after the last member.
pub open spec fn fixed_end(mls: Seq<LayoutData>) -> int
    decreases mls.len(),
{
    if mls.len() == 0 {
        0
    } else {
        align_up(fixed_end(mls.drop_last()), mls.last().alignment) + mls.last().size
    }
}

/// The offset of member `k` under the fixed policy.
pub open spec fn fixed_offset(mls: Seq<LayoutData>, k: int) -> int {
    align_up(fixed_end(mls.take(k)), mls[k].alignment)
}

/// Under the optimizing policy members are laid out by decreasing alignment,
/// ties broken by declaration order: member `j` comes before member `i` when
/// its alignment is larger, or equal with a smaller index.
pub open spec fn placed_before(mls: Seq<LayoutData>, j: int, i: int) -> bool {
    mls[j].alignment > mls[i].alignment || (mls[j].alignment == mls[i].alignment && j < i)
}

/// The sum of the sizes of the members among the first `k` that are placed
/// before member `i`. Because sizes are multiples of alignments and members
/// come in decreasing alignment order, no padding is ever needed, and this
/// sum is member `i`'s offset once `k` covers the whole sequence.
pub open spec fn sum_before(mls: Seq<LayoutData>, i: int, k: int) -> int
    decreases k,
{
    if k <= 0 {
        0
    } else {
        sum_before(mls, i, k - 1) + if placed_before(mls, k - 1, i) {
            mls[k - 1].size
        } else {
            0
        }
    }
}

/// The offset of member `i` under the optimizing policy.
pub open spec fn opt_offset(mls: Seq<LayoutData>, i: int) -> int {
    sum_before(mls, i, mls.len() as int)
}

/// The offset of member `k` under `policy`.
pub open spec fn member_offset(mls: Seq<LayoutData>, k: int, policy: LayoutPolicy) -> int {
    match policy {
        LayoutPolicy::Fixed => fixed_offset(mls, k),
        LayoutPolicy::Optimized => opt_offset(mls, k),
    }
}

/// Where the last used byte ends under `policy`, before the final rounding
/// up to the aggregate's alignment. Under the optimizing policy the members
/// pack with no padding at all, so this is simply the sum of the sizes.
pub open spec fn composite_end(mls: Seq<LayoutData>, policy: LayoutPolicy) -> int {
    match policy {
        LayoutPolicy::Fixed => fixed_end(mls),
        LayoutPolicy::Optimized => sum_sizes(mls),
    }
}

/// Whether some member is uninhabited (which makes the aggregate so).
pub open spec fn any_uninhabited(mls: Seq<LayoutData>) -> bool
    decreases mls.len(),
{
    if mls.len() == 0 {
        false
    } else {
        any_uninhabited(mls.drop_last()) || mls.last().uninhabited
    }
}

/// Whether some member contributes a niche (which the aggregate inherits).
pub open spec fn any_niche(mls: Seq<LayoutData>) -> bool
    decreases mls.len(),
{
    if mls.len() == 0 {
        false
    } else {
        any_niche(mls.drop_last()) || mls.last().has_niche
    }
}

/// The reported member table of a composite: declaration order, whatever the
/// policy, with each member's offset, size and alignment.
pub open spec fn composite_members(
    members: Seq<Member>,
    mls: Seq<LayoutData>,
    policy: LayoutPolicy,
) -> Seq<MemberData> {
    Seq::new(
        mls.len(),
        |k: int|
            MemberData {
                name: members[k].name@,
                offset: member_offset(mls, k, policy),
                size: mls[k].size,
                alignment: mls[k].alignment,
            },
    )
}

// ---------------------------------------------------------------------------
// Tagged unions
// ---------------------------------------------------------------------------

/// The size of a variant's payload region: 0 for an empty variant.
pub open spec fn payload_size(v: Option<LayoutData>) -> int {
    match v {
        Some(l) => l.size,
        None => 0,
    }
}

/// The alignment a variant demands: 1 for an empty variant.
pub open spec fn payload_align(v: Option<LayoutData>) -> int {
    match v {
        Some(l) => l.alignment,
        None => 1,
    }
}

/// How many variants carry a payload.
pub open spec fn payload_count(vls: Seq<Option<LayoutData>>) -> int
    decreases vls.len(),
{
    if vls.len() == 0 {
        0
    } else {
        payload_count(vls.drop_last()) + if vls.last() is Some {
            1int
        } else {
            0int
        }
    }
}

/// The largest payload size, or 0 when every variant is empty.
pub open spec fn max_payload_size(vls: Seq<Option<LayoutData>>) -> int
    decreases vls.len(),
{
    if vls.len() == 0 {
        0
    } else {
        max_int(max_payload_size(vls.drop_last()), payload_size(vls.last()))
    }
}

/// The largest payload alignment, or 1 when every variant is empty.
pub open spec fn max_payload_align(vls: Seq<Option<LayoutData>>) -> int
    decreases vls.len(),
{
    if vls.len() == 0 {
        1
    } else {
        max_int(max_payload_align(vls.drop_last()), payload_align(vls.last()))
    }
}

/// A union is uninhabited exactly when every variant is: an empty variant is
/// itself a value, so any empty variant makes the union inhabited, and a
/// union with no variants at all has no values.
pub open spec fn all_variants_uninhabited(vls: Seq<Option<LayoutData>>) -> bool
    decreases vls.len(),
{
    if vls.len() == 0 {
        true
    } else {
        all_variants_uninhabited(vls.drop_last()) && match vls.last() {
            Some(l) => l.uninhabited,
            None => false,
        }
    }
}

/// The index of a payload-carrying variant; meaningful when one exists.
pub open spec fn payload_index(vls: Seq<Option<LayoutData>>) -> int {
    choose|i: int| 0 <= i < vls.len() && vls[i] is Some
}

/// The layout of the payload-carrying variant; meaningful when exactly one
/// exists.
pub open spec fn payload_data(vls: Seq<Option<LayoutData>>) -> LayoutData {
    vls[payload_index(vls)]->Some_0
}

/// Niche encoding applies when exactly one variant carries a payload, at
/// least one variant is empty, and the payload's representation has a niche.
pub open spec fn niche_applies(vls: Seq<Option<LayoutData>>) -> bool {
    &&& payload_count(vls) == 1
    &&& vls.len() >= 2
    &&& exists|i: int| 0 <= i < vls.len() && vls[i] is Some
    &&& payload_data(vls).has_niche
}

/// The narrowest number of whole bytes whose bit patterns can tell `n`
/// variants apart (at least one byte).
pub open spec fn discriminant_bytes(n: int) -> int
    decreases n,
{
    if n <= 256 {
        1
    } else {
        1 + discriminant_bytes((n + 255) / 256)
    }
}

/// The discriminant width a union uses: the requested width (or the
/// profile's default), widened if need be so every variant is encodable.
pub open spec fn discriminant_width(
    variants_len: int,
    encoding: TagEncoding,
    profile: TargetProfile,
) -> int {
    let requested = match encoding {
        TagEncoding::Explicit { width: Some(w) } => w as int,
        _ => profile.default_discriminant_width as int,
    };
    max_int(requested, discriminant_bytes(variants_len))
}

/// The reported per-variant table of a union: each variant's payload region
/// starts at `po` (0 under niche encoding).
pub open spec fn union_members(
    variants: Seq<Variant>,
    vls: Seq<Option<LayoutData>>,
    po: int,
) -> Seq<MemberData> {
    Seq::new(
        vls.len(),
        |k: int|
            MemberData {
                name: variants[k].name@,
                offset: po,
                size: payload_size(vls[k]),
                alignment: payload_align(vls[k]),
            },
    )
}

/// Assembles a tagged union's layout from its variants' payload layouts.
pub open spec fn union_layout(
    variants: Seq<Variant>,
    encoding: TagEncoding,
    vls: Seq<Option<LayoutData>>,
    policy: LayoutPolicy,
    profile: TargetProfile,
) -> Result<LayoutData, LayoutError> {
    let niche_ok = niche_applies(vls);
    if (encoding matches TagEncoding::Niche) && !niche_ok {
        Err(LayoutError::NicheExhausted)
    } else if (encoding matches TagEncoding::Niche) || ((encoding matches TagEncoding::Auto)
        && niche_ok) {
        let pl = payload_data(vls);
        Ok(
            LayoutData {
                size: pl.size,
                alignment: pl.alignment,
                members: union_members(variants, vls, 0),
                representation: policy,
                discriminant: None,
                uninhabited: all_variants_uninhabited(vls),
                has_niche: false,
            },
        )
    } else if vls.len() == 0 {
        Ok(
            LayoutData {
                size: 0,
                alignment: 1,
                members: Seq::empty(),
                representation: policy,
                discriminant: None,
                uninhabited: true,
                has_niche: false,
            },
        )
    } else {
        let dw = discriminant_width(vls.len() as int, encoding, profile);
        match scalar_align_of(profile, dw as u64) {
            None => Err(LayoutError::UnsupportedProfile),
            Some(da) => {
                let pa = max_payload_align(vls);
                let po = align_up(dw, pa);
                let pmax = max_payload_size(vls);
                let aln = max_int(da as int, pa);
                let size = align_up(po + pmax, aln);
                if !fits(size) {
                    Err(LayoutError::SizeOverflow)
                } else {
                    Ok(
                        LayoutData {
                            size,
                            alignment: aln,
                            members: union_members(variants, vls, po),
                            representation: policy,
                            discriminant: Some(DiscriminantData { offset: 0, width: dw }),
                            uninhabited: all_variants_uninhabited(vls),
                            has_niche: false,
                        },
                    )
                }
            },
        }
    }
}

// ---------------------------------------------------------------------------
// The layout model
// ---------------------------------------------------------------------------

/// The layout of the type registered at `id`, or the error its query
/// reports. Recursion into a member index at or above the enclosing type's
/// own slot is exactly a cycle without pointer indirection (the registry
/// only ever stores indices at or below the owner's slot) and is rejected;
/// pointer targets are never recursed into, which is what makes recursive
/// types behind pointers finite.
pub open spec fn layout_of(
    types: Seq<TypeDescriptor>,
    id: int,
    policy: LayoutPolicy,
    profile: TargetProfile,
) -> Result<LayoutData, LayoutError>
    decreases id, 1int, 0int,
{
    match types[id] {
        TypeDescriptor::Scalar { width } => match scalar_align_of(profile, width) {
            None => Err(LayoutError::UnsupportedProfile),
            Some(a) => Ok(
                LayoutData {
                    size: width as int,
                    alignment: a as int,
                    members: Seq::empty(),
                    representation: policy,
                    discriminant: None,
                    uninhabited: false,
                    has_niche: false,
                },
            ),
        },
        TypeDescriptor::Pointer { kind, .. } => {
            let pw = profile.pointer_width as int;
            let size = if (kind matches PointerKind::Thin) {
                pw
            } else {
                2 * pw
            };
            if !fits(size) {
                Err(LayoutError::SizeOverflow)
            } else {
                Ok(
                    LayoutData {
                        size,
                        alignment: pw,
                        members: Seq::empty(),
                        representation: policy,
                        discriminant: None,
                        uninhabited: false,
                        has_niche: true,
                    },
                )
            }
        },
        TypeDescriptor::Composite { members } => {
            match member_layouts_from(types, members@, 0, id, policy, profile) {
                Err(e) => Err(e),
                Ok(mls) => {
                    let aln = max_align(mls);
                    let size = align_up(composite_end(mls, policy), aln);
                    if !fits(size) {
                        Err(LayoutError::SizeOverflow)
                    } else {
                        Ok(
                            LayoutData {
                                size,
                                alignment: aln,
                                members: composite_members(members@, mls, policy),
                                representation: policy,
                                discriminant: None,
                                uninhabited: any_uninhabited(mls),
                                has_niche: any_niche(mls),
                            },
                        )
                    }
                },
            }
        },
        TypeDescriptor::FixedArray { element, count } => {
            if element >= id {
                Err(LayoutError::CyclicLayout)
            } else {
                match layout_of(types, element as int, policy, profile) {
                    Err(e) => Err(e),
                    Ok(el) => {
                        let size = count as int * el.size;
                        if !fits(size) {
                            Err(LayoutError::SizeOverflow)
                        } else {
                            Ok(
                                LayoutData {
                                    size,
                                    alignment: el.alignment,
                                    members: Seq::empty(),
                                    representation: policy,
                                    discriminant: None,
                                    uninhabited: count > 0 && el.uninhabited,
                                    has_niche: count > 0 && el.has_niche,
                                },
                            )
                        }
                    },
                }
            }
        },
        TypeDescriptor::TaggedUnion { variants, encoding } => {
            match variant_layouts_from(types, variants@, 0, id, policy, profile) {
                Err(e) => Err(e),
                Ok(vls) => union_layout(variants@, encoding, vls, policy, profile),
            }
        },
        TypeDescriptor::GenericTail { .. } => Err(LayoutError::InvalidDstPlacement),
        TypeDescriptor::Uninhabited => Ok(
            LayoutData {
                size: 0,
                alignment: 1,
                members: Seq::empty(),
                representation: policy,
                discriminant: None,
                uninhabited: true,
                has_niche: false,
            },
        ),
        TypeDescriptor::ZeroSized => Ok(
            LayoutData {
                size: 0,
                alignment: 1,
                members: Seq::empty(),
                representation: policy,
                discriminant: None,
                uninhabited: false,
                has_niche: false,
            },
        ),
    }
}

/// The layouts of the members from index `k` on, or the first error met, in
/// member order.
pub open spec fn member_layouts_from(
    types: Seq<TypeDescriptor>,
    members: Seq<Member>,
    k: int,
    id: int,
    policy: LayoutPolicy,
    profile: TargetProfile,
) -> Result<Seq<LayoutData>, LayoutError>
    decreases id, 0int, members.len() - k,
{
    if k < 0 || k >= members.len() {
        Ok(Seq::empty())
    } else {
        let ty = members[k].ty;
        if ty >= id {
            Err(LayoutError::CyclicLayout)
        } else {
            match layout_of(types, ty as int, policy, profile) {
                Err(e) => Err(e),
                Ok(ml) => match member_layouts_from(types, members, k + 1, id, policy, profile) {
                    Err(e) => Err(e),
                    Ok(rest) => Ok(seq![ml] + rest),
                },
            }
        }
    }
}

/// The payload layouts of the variants from index `k` on (`None` for an
/// empty variant), or the first error met, in variant order.
pub open spec fn variant_layouts_from(
    types: Seq<TypeDescriptor>,
    variants: Seq<Variant>,
    k: int,
    id: int,
    policy: LayoutPolicy,
    profile: TargetProfile,
) -> Result<Seq<Option<LayoutData>>, LayoutError>
    decreases id, 0int, variants.len() - k,
{
    if k < 0 || k >= variants.len() {
        Ok(Seq::empty())
    } else {
        match variants[k].payload {
            None => match variant_layouts_from(types, variants, k + 1, id, policy, profile) {
                Err(e) => Err(e),
                Ok(rest) => Ok(seq![None] + rest),
            },
            Some(p) => {
                if p >= id {
                    Err(LayoutError::CyclicLayout)
                } else {
                    match layout_of(types, p as int, policy, profile) {
                        Err(e) => Err(e),
                        Ok(pl) => match variant_layouts_from(
                            types,
                            variants,
                            k + 1,
                            id,
                            policy,
                            profile,
                        ) {
                            Err(e) => Err(e),
                            Ok(rest) => Ok(seq![Some(pl)] + rest),
                        },
                    }
                }
            },
        }
    }
}

} // verus!

// ---------------------------------------------------------------------------
// Well-formedness of every layout the model produces
// ---------------------------------------------------------------------------

verus! {

/// What holds of every reported member or variant region: it lies inside
/// the enclosing type, at an offset aligned to its own alignment, and its
/// size is a multiple of that alignment.
pub open spec fn member_wf(m: MemberData, size: int) -> bool {
    &&& 0 <= m.offset
    &&& 0 <= m.size
    &&& 1 <= m.alignment
    &&& is_pow2(m.alignment)
    &&& m.offset % m.alignment == 0
    &&& m.size % m.alignment == 0
    &&& m.offset + m.size <= size
}

/// What holds of every layout the model produces: the size is a multiple of
/// the alignment, the alignment is a power of two, every member region is
/// well placed, and a discriminant, if any, starts at offset 0 and fits.
pub open spec fn data_wf(d: LayoutData) -> bool {
    &&& 0 <= d.size
    &&& fits(d.size)
    &&& 1 <= d.alignment
    &&& is_pow2(d.alignment)
    &&& d.size % d.alignment == 0
    &&& forall|k: int| 0 <= k < d.members.len() ==> member_wf(#[trigger] d.members[k], d.size)
    &&& match d.discriminant {
        Some(dd) => dd.offset == 0 && 1 <= dd.width && dd.width <= d.size,
        None => true,
    }
}

/// Every member layout in the sequence is well formed.
pub open spec fn datas_wf(mls: Seq<LayoutData>) -> bool {
    forall|k: int| 0 <= k < mls.len() ==> data_wf(#[trigger] mls[k])
}

/// Every present payload layout in the sequence is well formed.
pub open spec fn opt_datas_wf(vls: Seq<Option<LayoutData>>) -> bool {
    forall|k: int|
        0 <= k < vls.len() ==> match #[trigger] vls[k] {
            Some(l) => data_wf(l),
            None => true,
        }
}

/// The aggregate alignment is a power of two at least as large as every
/// member's alignment.
pub proof fn lemma_max_align_bounds(mls: Seq<LayoutData>)
    requires
        datas_wf(mls),
    ensures
        1 <= max_align(mls),
        is_pow2(max_align(mls)),
        forall|k: int| 0 <= k < mls.len() ==> (#[trigger] mls[k]).alignment <= max_align(mls),
    decreases mls.len(),
{
    if mls.len() == 0 {
        assert(is_pow2(1));
    } else {
        assert(datas_wf(mls.drop_last())) by {
            assert(forall|k: int|
                0 <= k < mls.drop_last().len() ==> mls.drop_last()[k] == #[trigger] mls[k]);
        }
        lemma_max_align_bounds(mls.drop_last());
        assert(forall|k: int|
            0 <= k < mls.len() - 1 ==> (#[trigger] mls[k]).alignment <= max_align(mls)) by {
            assert(forall|k: int|
                0 <= k < mls.len() - 1 ==> (#[trigger] mls[k]) == mls.drop_last()[k]);
        }
    }
}

/// Sums of member sizes are non-negative.
pub proof fn lemma_sum_sizes_nonneg(mls: Seq<LayoutData>, k: int)
    requires
        datas_wf(mls),
        0 <= k <= mls.len(),
    ensures
        0 <= sum_sizes(mls.take(k)),
    decreases k,
{
    if k > 0 {
        lemma_sum_sizes_nonneg(mls, k - 1);
        assert(mls.take(k).drop_last() =~= mls.take(k - 1));
        assert(mls.take(k).last() == mls[k - 1]);
    }
}

/// Sums of member sizes grow with the prefix summed.
pub proof fn lemma_sum_sizes_mono(mls: Seq<LayoutData>, k: int, j: int)
    requires
        datas_wf(mls),
        0 <= k <= j <= mls.len(),
    ensures
        0 <= sum_sizes(mls.take(k)) <= sum_sizes(mls.take(j)),
    decreases j,
{
    lemma_sum_sizes_nonneg(mls, k);
    if k < j {
        lemma_sum_sizes_mono(mls, k, j - 1);
        assert(mls.take(j).drop_last() =~= mls.take(j - 1));
        assert(mls.take(j).last() == mls[j - 1]);
    }
}

/// The end of a fixed-policy prefix is non-negative.
pub proof fn lemma_fixed_end_nonneg(mls: Seq<LayoutData>, k: int)
    requires
        datas_wf(mls),
        0 <= k <= mls.len(),
    ensures
        0 <= fixed_end(mls.take(k)),
    decreases k,
{
    if k > 0 {
        lemma_fixed_end_nonneg(mls, k - 1);
        assert(mls.take(k).drop_last() =~= mls.take(k - 1));
        assert(mls.take(k).last() == mls[k - 1]);
        crate::align::lemma_align_up_props(fixed_end(mls.take(k - 1)), mls[k - 1].alignment);
    }
}

/// The end of a fixed-policy prefix grows with the prefix laid out.
pub proof fn lemma_fixed_end_mono(mls: Seq<LayoutData>, k: int, j: int)
    requires
        datas_wf(mls),
        0 <= k <= j <= mls.len(),
    ensures
        0 <= fixed_end(mls.take(k)) <= fixed_end(mls.take(j)),
    decreases j,
{
    lemma_fixed_end_nonneg(mls, k);
    if k < j {
        lemma_fixed_end_mono(mls, k, j - 1);
        assert(mls.take(j).drop_last() =~= mls.take(j - 1));
        assert(mls.take(j).last() == mls[j - 1]);
        crate::align::lemma_align_up_props(fixed_end(mls.take(j - 1)), mls[j - 1].alignment);
    }
}

/// Each fixed-policy member region is aligned and lies within the end of
/// the whole sequence's layout.
pub proof fn lemma_fixed_offset_wf(mls: Seq<LayoutData>, k: int)
    requires
        datas_wf(mls),
        0 <= k < mls.len(),
    ensures
        0 <= fixed_offset(mls, k),
        fixed_offset(mls, k) % mls[k].alignment == 0,
        fixed_offset(mls, k) + mls[k].size <= fixed_end(mls),
{
    lemma_fixed_end_mono(mls, 0, k);
    crate::align::lemma_align_up_props(fixed_end(mls.take(k)), mls[k].alignment);
    assert(mls.take(k + 1).drop_last() =~= mls.take(k));
    assert(mls.take(k + 1).last() == mls[k]);
    assert(fixed_end(mls.take(k + 1)) == fixed_offset(mls, k) + mls[k].size);
    lemma_fixed_end_mono(mls, k + 1, mls.len() as int);
    assert(mls.take(mls.len() as int) =~= mls);
}

/// A partial optimizing-policy offset stays within the total of the sizes:
/// the sizes summed for member `i` over the first `k` members, plus member
/// `i`'s own size once it is among them, never exceed the prefix's total.
pub proof fn lemma_sum_before_in_total(mls: Seq<LayoutData>, i: int, k: int)
    requires
        datas_wf(mls),
        0 <= i < mls.len(),
        0 <= k <= mls.len(),
    ensures
        0 <= sum_before(mls, i, k),
        sum_before(mls, i, k) + if i < k {
            mls[i].size
        } else {
            0
        } <= sum_sizes(mls.take(k)),
    decreases k,
{
    if k > 0 {
        lemma_sum_before_in_total(mls, i, k - 1);
        assert(mls.take(k).drop_last() =~= mls.take(k - 1));
        assert(mls.take(k).last() == mls[k - 1]);
        assert(!placed_before(mls, i, i));
    }
}

/// An optimizing-policy offset is a multiple of its member's alignment:
/// everything placed before member `i` has alignment at least `i`'s, and a
/// size that is a multiple of its own alignment.
pub proof fn lemma_sum_before_aligned(mls: Seq<LayoutData>, i: int, k: int)
    requires
        datas_wf(mls),
        0 <= i < mls.len(),
        0 <= k <= mls.len(),
    ensures
        sum_before(mls, i, k) % mls[i].alignment == 0,
    decreases k,
{
    vstd::arithmetic::div_mod::lemma_small_mod(0, mls[i].alignment as nat);
    if k > 0 {
        lemma_sum_before_aligned(mls, i, k - 1);
        if placed_before(mls, k - 1, i) {
            crate::align::lemma_pow2_le_divides(mls[i].alignment, mls[k - 1].alignment);
            crate::align::lemma_divides_transitive(
                mls[k - 1].size,
                mls[k - 1].alignment,
                mls[i].alignment,
            );
            crate::align::lemma_multiple_add(
                sum_before(mls, i, k - 1),
                mls[k - 1].size,
                mls[i].alignment,
            );
        }
    }
}

/// The union payload region's maximum size and alignment bound, and are of
/// the same kind as, each variant's own.
pub proof fn lemma_payload_maxes(vls: Seq<Option<LayoutData>>)
    requires
        opt_datas_wf(vls),
    ensures
        0 <= max_payload_size(vls),
        1 <= max_payload_align(vls),
        is_pow2(max_payload_align(vls)),
        forall|k: int| 0 <= k < vls.len() ==> payload_size(#[trigger] vls[k]) <= max_payload_size(vls),
        forall|k: int|
            0 <= k < vls.len() ==> payload_align(#[trigger] vls[k]) <= max_payload_align(vls),
        forall|k: int|
            0 <= k < vls.len() ==> 1 <= payload_align(#[trigger] vls[k]) && is_pow2(
                payload_align(vls[k]),
            ) && 0 <= payload_size(vls[k]) && payload_size(vls[k]) % payload_align(vls[k]) == 0,
    decreases vls.len(),
{
    assert(is_pow2(1));
    if vls.len() > 0 {
        assert(opt_datas_wf(vls.drop_last())) by {
            assert(forall|k: int|
                0 <= k < vls.drop_last().len() ==> vls.drop_last()[k] == #[trigger] vls[k]);
        }
        lemma_payload_maxes(vls.drop_last());
        assert(forall|k: int| 0 <= k < vls.len() - 1 ==> #[trigger] vls[k] == vls.drop_last()[k]);
        match vls.last() {
            Some(l) => {
                vstd::arithmetic::div_mod::lemma_small_mod(0, 1nat);
            },
            None => {
                vstd::arithmetic::div_mod::lemma_small_mod(0, 1nat);
            },
        }
    }
}

/// A variant with a payload makes the payload count positive.
pub proof fn lemma_one_payload(vls: Seq<Option<LayoutData>>, i: int)
    requires
        0 <= i < vls.len(),
        vls[i] is Some,
    ensures
        payload_count(vls) >= 1,
    decreases vls.len(),
{
    lemma_payload_count_nonneg(vls.drop_last());
    if i < vls.len() - 1 {
        assert(vls.drop_last()[i] == vls[i]);
        lemma_one_payload(vls.drop_last(), i);
    }
}

/// Payload counts are non-negative.
pub proof fn lemma_payload_count_nonneg(vls: Seq<Option<LayoutData>>)
    ensures
        0 <= payload_count(vls),
    decreases vls.len(),
{
    if vls.len() > 0 {
        lemma_payload_count_nonneg(vls.drop_last());
    }
}

/// Two distinct variants with payloads make the payload count at least two.
pub proof fn lemma_two_payloads(vls: Seq<Option<LayoutData>>, i: int, j: int)
    requires
        0 <= i < j < vls.len(),
        vls[i] is Some,
        vls[j] is Some,
    ensures
        payload_count(vls) >= 2,
    decreases vls.len(),
{
    if j == vls.len() - 1 {
        assert(vls.drop_last()[i] == vls[i]);
        lemma_one_payload(vls.drop_last(), i);
    } else {
        assert(vls.drop_last()[i] == vls[i]);
        assert(vls.drop_last()[j] == vls[j]);
        lemma_two_payloads(vls.drop_last(), i, j);
    }
}

/// With exactly one payload-carrying variant, any variant with a payload is
/// the one `payload_index` names.
pub proof fn lemma_payload_unique(vls: Seq<Option<LayoutData>>, i: int)
    requires
        payload_count(vls) == 1,
        0 <= i < vls.len(),
        vls[i] is Some,
    ensures
        payload_index(vls) == i,
        payload_data(vls) == vls[i]->Some_0,
{
    let j = payload_index(vls);
    assert(0 <= j < vls.len() && vls[j] is Some);
    if i != j {
        if i < j {
            lemma_two_payloads(vls, i, j);
        } else {
            lemma_two_payloads(vls, j, i);
        }
    }
}

/// At least one byte of discriminant is always needed.
pub proof fn lemma_discriminant_bytes_ge1(n: int)
    ensures
        discriminant_bytes(n) >= 1,
    decreases n,
{
    if n > 256 {
        lemma_discriminant_bytes_ge1((n + 255) / 256);
    }
}

/// Powers of 256, for bounding discriminant widths.
pub open spec fn pow256(k: int) -> int
    decreases k,
{
    if k <= 0 {
        1
    } else {
        256 * pow256(k - 1)
    }
}

/// `k` bytes of discriminant can tell up to `256^k` variants apart.
pub proof fn lemma_discriminant_bytes_le(n: int, k: int)
    requires
        1 <= k,
        n <= pow256(k),
    ensures
        discriminant_bytes(n) <= k,
    decreases k,
{
    reveal_with_fuel(pow256, 2);
    if n > 256 {
        assert(pow256(1) == 256);
        assert(k >= 2) by {
            if k == 1 {
                assert(pow256(1) == 256);
            }
        }
        let p = pow256(k - 1);
        assert(pow256(k) == 256 * p);
        vstd::arithmetic::div_mod::lemma_div_is_ordered(n + 255, 256 * p + 255, 256);
        vstd::arithmetic::div_mod::lemma_div_multiples_vanish_fancy(p, 255, 256);
        lemma_discriminant_bytes_le((n + 255) / 256, k - 1);
    }
}

/// No more than eight discriminant bytes are ever needed for a count that
/// fits the engine's arithmetic.
pub proof fn lemma_discriminant_bytes_le8(n: int)
    requires
        n <= 0x1_0000_0000_0000_0000,
    ensures
        discriminant_bytes(n) <= 8,
{
    reveal_with_fuel(pow256, 9);
    assert(pow256(8) == 0x1_0000_0000_0000_0000);
    lemma_discriminant_bytes_le(n, 8);
}

} // verus!

// ---------------------------------------------------------------------------
// Every layout the model accepts is well formed
// ---------------------------------------------------------------------------

verus! {

/// Every `Ok` layout the model produces is well formed: its size is a
/// multiple of its (power-of-two) alignment, every member region is aligned
/// and lies within the type, and a discriminant, if any, fits before the
/// payload region.
pub proof fn lemma_layout_wf(
    types: Seq<TypeDescriptor>,
    id: int,
    policy: LayoutPolicy,
    profile: TargetProfile,
)
    requires
        profile_wf(profile),
        layout_of(types, id, policy, profile) is Ok,
    ensures
        data_wf(layout_of(types, id, policy, profile)->Ok_0),
    decreases id, 1int, 0int,
{
    let d = layout_of(types, id, policy, profile)->Ok_0;
    vstd::arithmetic::div_mod::lemma_small_mod(0, 1nat);
    assert(is_pow2(1));
    match types[id] {
        TypeDescriptor::Scalar { width } => {
            crate::profile::lemma_scalar_align_wf(profile, width);
            crate::align::lemma_pow2_pos(d.alignment);
        },
        TypeDescriptor::Pointer { kind, .. } => {
            let pw = profile.pointer_width as int;
            crate::align::lemma_pow2_pos(pw);
            vstd::arithmetic::div_mod::lemma_mod_multiples_basic(1, pw);
            vstd::arithmetic::div_mod::lemma_mod_multiples_basic(2, pw);
        },
        TypeDescriptor::Composite { members } => {
            let mls = member_layouts_from(types, members@, 0, id, policy, profile)->Ok_0;
            lemma_member_layouts_wf(types, members@, 0, id, policy, profile);
            lemma_max_align_bounds(mls);
            let aln = max_align(mls);
            let end = composite_end(mls, policy);
            assert(mls.take(mls.len() as int) =~= mls);
            match policy {
                LayoutPolicy::Fixed => {
                    lemma_fixed_end_mono(mls, 0, mls.len() as int);
                },
                LayoutPolicy::Optimized => {
                    lemma_sum_sizes_mono(mls, 0, mls.len() as int);
                },
            }
            crate::align::lemma_align_up_props(end, aln);
            assert forall|k: int| 0 <= k < d.members.len() implies member_wf(
                #[trigger] d.members[k],
                d.size,
            ) by {
                assert(data_wf(mls[k]));
                match policy {
                    LayoutPolicy::Fixed => {
                        lemma_fixed_offset_wf(mls, k);
                    },
                    LayoutPolicy::Optimized => {
                        lemma_sum_before_in_total(mls, k, mls.len() as int);
                        lemma_sum_before_aligned(mls, k, mls.len() as int);
                    },
                }
            }
        },
        TypeDescriptor::FixedArray { element, count } => {
            lemma_layout_wf(types, element as int, policy, profile);
            let el = layout_of(types, element as int, policy, profile)->Ok_0;
            vstd::arithmetic::mul::lemma_mul_nonnegative(count as int, el.size);
            crate::align::lemma_multiple_scale(count as int, el.size, el.alignment);
        },
        TypeDescriptor::TaggedUnion { variants, encoding } => {
            let vls = variant_layouts_from(types, variants@, 0, id, policy, profile)->Ok_0;
            lemma_variant_layouts_wf(types, variants@, 0, id, policy, profile);
            lemma_payload_maxes(vls);
            let niche_ok = niche_applies(vls);
            if (encoding matches TagEncoding::Niche) && !niche_ok {
            } else if (encoding matches TagEncoding::Niche) || ((encoding matches TagEncoding::Auto)
                && niche_ok) {
                let i = payload_index(vls);
                assert(0 <= i < vls.len() && vls[i] is Some);
                let pl = payload_data(vls);
                assert(data_wf(pl));
                assert forall|k: int| 0 <= k < d.members.len() implies member_wf(
                    #[trigger] d.members[k],
                    d.size,
                ) by {
                    vstd::arithmetic::div_mod::lemma_small_mod(0, payload_align(vls[k]) as nat);
                    if vls[k] is Some {
                        lemma_payload_unique(vls, k);
                    }
                }
            } else if vls.len() == 0 {
            } else {
                let dw = discriminant_width(vls.len() as int, encoding, profile);
                lemma_discriminant_bytes_ge1(vls.len() as int);
                let da = scalar_align_of(profile, dw as u64)->Some_0;
                crate::profile::lemma_scalar_align_wf(profile, dw as u64);
                crate::align::lemma_pow2_pos(da as int);
                let pa = max_payload_align(vls);
                let po = align_up(dw, pa);
                let pmax = max_payload_size(vls);
                let aln = max_int(da as int, pa);
                crate::align::lemma_align_up_props(dw, pa);
                crate::align::lemma_align_up_props(po + pmax, aln);
                assert(d.size % d.alignment == 0);
                assert forall|k: int| 0 <= k < d.members.len() implies member_wf(
                    #[trigger] d.members[k],
                    d.size,
                ) by {
                    crate::align::lemma_pow2_le_divides(payload_align(vls[k]), pa);
                    crate::align::lemma_divides_transitive(po, pa, payload_align(vls[k]));
                }
            }
        },
        TypeDescriptor::GenericTail { .. } => {},
        TypeDescriptor::Uninhabited => {},
        TypeDescriptor::ZeroSized => {},
    }
}

/// Every member layout in an `Ok` batch is well formed.
pub proof fn lemma_member_layouts_wf(
    types: Seq<TypeDescriptor>,
    members: Seq<Member>,
    k: int,
    id: int,
    policy: LayoutPolicy,
    profile: TargetProfile,
)
    requires
        profile_wf(profile),
        member_layouts_from(types, members, k, id, policy, profile) is Ok,
    ensures
        datas_wf(member_layouts_from(types, members, k, id, policy, profile)->Ok_0),
    decreases id, 0int, members.len() - k,
{
    if k < 0 || k >= members.len() {
    } else {
        let ty = members[k].ty;
        lemma_layout_wf(types, ty as int, policy, profile);
        lemma_member_layouts_wf(types, members, k + 1, id, policy, profile);
        let ml = layout_of(types, ty as int, policy, profile)->Ok_0;
        let rest = member_layouts_from(types, members, k + 1, id, policy, profile)->Ok_0;
        let res = member_layouts_from(types, members, k, id, policy, profile)->Ok_0;
        assert forall|j: int| 0 <= j < res.len() implies data_wf(#[trigger] res[j]) by {
            if j == 0 {
                assert(res[j] == ml);
            } else {
                assert(res[j] == rest[j - 1]);
            }
        }
    }
}

/// Every present payload layout in an `Ok` batch is well formed.
pub proof fn lemma_variant_layouts_wf(
    types: Seq<TypeDescriptor>,
    variants: Seq<Variant>,
    k: int,
    id: int,
    policy: LayoutPolicy,
    profile: TargetProfile,
)
    requires
        profile_wf(profile),
        variant_layouts_from(types, variants, k, id, policy, profile) is Ok,
    ensures
        opt_datas_wf(variant_layouts_from(types, variants, k, id, policy, profile)->Ok_0),
    decreases id, 0int, variants.len() - k,
{
    if k < 0 || k >= variants.len() {
    } else {
        let res = variant_layouts_from(types, variants, k, id, policy, profile)->Ok_0;
        lemma_variant_layouts_wf(types, variants, k + 1, id, policy, profile);
        let rest = variant_layouts_from(types, variants, k + 1, id, policy, profile)->Ok_0;
        match variants[k].payload {
            None => {
                assert forall|j: int| 0 <= j < res.len() implies match #[trigger] res[j] {
                    Some(l) => data_wf(l),
                    None => true,
                } by {
                    if j == 0 {
                        assert(res[j] is None);
                    } else {
                        assert(res[j] == rest[j - 1]);
                    }
                }
            },
            Some(p) => {
                lemma_layout_wf(types, p as int, policy, profile);
                let pl = layout_of(types, p as int, policy, profile)->Ok_0;
                assert forall|j: int| 0 <= j < res.len() implies match #[trigger] res[j] {
                    Some(l) => data_wf(l),
                    None => true,
                } by {
                    if j == 0 {
                        assert(res[j] == Some(pl));
                    } else {
                        assert(res[j] == rest[j - 1]);
                    }
                }
            },
        }
    }
}

} // verus!

// ---------------------------------------------------------------------------
// A layout depends only on the registry up to the type's own slot
// ---------------------------------------------------------------------------

verus! {

/// Two registries that agree up to slot `id` assign the type at `id` the
/// same layout: growing the registry never changes an earlier type's layout,
/// which is what keeps cached results valid.
pub proof fn lemma_layout_of_agree(
    types1: Seq<TypeDescriptor>,
    types2: Seq<TypeDescriptor>,
    id: int,
    policy: LayoutPolicy,
    profile: TargetProfile,
)
    requires
        0 <= id < types1.len(),
        id < types2.len(),
        forall|j: int| 0 <= j <= id ==> types1[j] == types2[j],
    ensures
        layout_of(types1, id, policy, profile) == layout_of(types2, id, policy, profile),
    decreases id, 1int, 0int,
{
    assert(types1[id] == types2[id]);
    match types1[id] {
        TypeDescriptor::Composite { members } => {
            lemma_member_layouts_agree(types1, types2, members@, 0, id, policy, profile);
        },
        TypeDescriptor::FixedArray { element, .. } => {
            if element < id {
                lemma_layout_of_agree(types1, types2, element as int, policy, profile);
            }
        },
        TypeDescriptor::TaggedUnion { variants, .. } => {
            lemma_variant_layouts_agree(types1, types2, variants@, 0, id, policy, profile);
        },
        _ => {},
    }
}

/// Member layout batches agree between registries that agree up to `id`.
pub proof fn lemma_member_layouts_agree(
    types1: Seq<TypeDescriptor>,
    types2: Seq<TypeDescriptor>,
    members: Seq<Member>,
    k: int,
    id: int,
    policy: LayoutPolicy,
    profile: TargetProfile,
)
    requires
        0 <= id < types1.len(),
        id < types2.len(),
        forall|j: int| 0 <= j <= id ==> types1[j] == types2[j],
    ensures
        member_layouts_from(types1, members, k, id, policy, profile) == member_layouts_from(
            types2,
            members,
            k,
            id,
            policy,
            profile,
        ),
    decreases id, 0int, members.len() - k,
{
    if k < 0 || k >= members.len() {
    } else {
        let ty = members[k].ty;
        if ty < id {
            lemma_layout_of_agree(types1, types2, ty as int, policy, profile);
            lemma_member_layouts_agree(types1, types2, members, k + 1, id, policy, profile);
        }
    }
}

/// Variant payload batches agree between registries that agree up to `id`.
pub proof fn lemma_variant_layouts_agree(
    types1: Seq<TypeDescriptor>,
    types2: Seq<TypeDescriptor>,
    variants: Seq<Variant>,
    k: int,
    id: int,
    policy: LayoutPolicy,
    profile: TargetProfile,
)
    requires
        0 <= id < types1.len(),
        id < types2.len(),
        forall|j: int| 0 <= j <= id ==> types1[j] == types2[j],
    ensures
        variant_layouts_from(types1, variants, k, id, policy, profile) == variant_layouts_from(
            types2,
            variants,
            k,
            id,
            policy,
            profile,
        ),
    decreases id, 0int, variants.len() - k,
{
    if k < 0 || k >= variants.len() {
    } else {
        match variants[k].payload {
            None => {
                lemma_variant_layouts_agree(types1, types2, variants, k + 1, id, policy, profile);
            },
            Some(p) => {
                if p < id {
                    lemma_layout_of_agree(types1, types2, p as int, policy, profile);
                    lemma_variant_layouts_agree(
                        types1,
                        types2,
                        variants,
                        k + 1,
                        id,
                        policy,
                        profile,
                    );
                }
            },
        }
    }
}

} // verus!
