//! The laws the engine keeps, stated and proved over the model: aggregate
//! invariants, zero-sized types, the optimizing policy never losing to the
//! fixed one, niche and explicit tag encodings, and pointer sizes.

use vstd::prelude::*;
use crate::align::{align_up, is_pow2, max_int};
use crate::descriptor::{Member, TagEncoding, TypeDescriptor, Variant};
use crate::model::{
    datas_wf, discriminant_width, fixed_end, layout_of, lemma_layout_wf, lemma_max_align_bounds,
    lemma_member_layouts_wf, lemma_payload_maxes, lemma_payload_unique, max_align,
    max_payload_align, max_payload_size, member_layouts_from, niche_applies, payload_align,
    payload_count, payload_data, payload_index, payload_size, sum_sizes, variant_layouts_from,
};
use crate::profile::{profile_wf, scalar_align_of, TargetProfile};
use crate::result::{LayoutData, LayoutPolicy, MemberData};

verus! {

/// The largest alignment among reported members, or 1 with none: the same
/// fold as `max_align`, but over the member table a caller sees.
pub open spec fn members_max_align(ms: Seq<MemberData>) -> int
    decreases ms.len(),
{
    if ms.len() == 0 {
        1
    } else {
        max_int(members_max_align(ms.drop_last()), ms.last().alignment)
    }
}

/// The largest size among reported members, or 0 with none.
pub open spec fn members_max_size(ms: Seq<MemberData>) -> int
    decreases ms.len(),
{
    if ms.len() == 0 {
        0
    } else {
        max_int(members_max_size(ms.drop_last()), ms.last().size)
    }
}

proof fn lemma_members_max_align_eq(ms: Seq<MemberData>, mls: Seq<LayoutData>)
    requires
        ms.len() == mls.len(),
        forall|k: int| 0 <= k < ms.len() ==> (#[trigger] ms[k]).alignment == mls[k].alignment,
    ensures
        members_max_align(ms) == max_align(mls),
    decreases ms.len(),
{
    if ms.len() > 0 {
        lemma_members_max_align_eq(ms.drop_last(), mls.drop_last());
    }
}

/// Every layout the engine returns has a size that is a multiple of its
/// alignment, and a power-of-two alignment; for a composite, the alignment
/// is exactly the largest member alignment, or 1 with no members.
pub proof fn lemma_composite_invariants(
    types: Seq<TypeDescriptor>,
    id: int,
    policy: LayoutPolicy,
    profile: TargetProfile,
)
    requires
        profile_wf(profile),
        layout_of(types, id, policy, profile) is Ok,
    ensures
        layout_of(types, id, policy, profile) matches Ok(d) && {
            &&& d.size % d.alignment == 0
            &&& d.alignment >= 1
            &&& is_pow2(d.alignment)
            &&& (types[id] matches TypeDescriptor::Composite { .. } ==> d.alignment
                == members_max_align(d.members))
        },
{
    lemma_layout_wf(types, id, policy, profile);
    let d = layout_of(types, id, policy, profile)->Ok_0;
    if types[id] matches TypeDescriptor::Composite { .. } {
        let members = types[id]->Composite_members;
        let mls = member_layouts_from(types, members@, 0, id, policy, profile)->Ok_0;
        lemma_members_max_align_eq(d.members, mls);
    }
}

/// A zero-sized type always lays out successfully, with zero size (and unit
/// alignment), under either policy.
pub proof fn lemma_zero_sized(
    types: Seq<TypeDescriptor>,
    id: int,
    policy: LayoutPolicy,
    profile: TargetProfile,
)
    requires
        types[id] is ZeroSized,
    ensures
        layout_of(types, id, policy, profile) matches Ok(d) && d.size == 0 && d.alignment == 1,
{
}

/// A fixed array of zero-sized elements has size zero whatever its count.
pub proof fn lemma_zero_sized_array(
    types: Seq<TypeDescriptor>,
    id: int,
    policy: LayoutPolicy,
    profile: TargetProfile,
)
    requires
        types[id] matches TypeDescriptor::FixedArray { element, count } && element < id
            && types[element as int] is ZeroSized,
    ensures
        layout_of(types, id, policy, profile) matches Ok(d) && d.size == 0,
{
    let element = types[id]->FixedArray_element;
    lemma_zero_sized(types, element as int, policy, profile);
}

/// A thin pointer occupies one pointer width; a fat pointer to a bounded
/// sequence or to a polymorphic value occupies exactly two, one for the
/// address and one for the element count or dispatch table. Either way the
/// alignment is the pointer width, and the query succeeds whenever the
/// doubled width is representable.
pub proof fn lemma_pointer_size(
    types: Seq<TypeDescriptor>,
    id: int,
    policy: LayoutPolicy,
    profile: TargetProfile,
)
    requires
        types[id] matches TypeDescriptor::Pointer { .. },
        layout_of(types, id, policy, profile) is Ok,
    ensures
        layout_of(types, id, policy, profile) matches Ok(d) && {
            &&& d.alignment == profile.pointer_width
            &&& d.discriminant is None
            &&& (types[id]->Pointer_kind is Thin ==> d.size == profile.pointer_width)
            &&& (!(types[id]->Pointer_kind is Thin) ==> d.size == 2 * profile.pointer_width)
            &&& d.has_niche
        },
{
}

} // verus!

// ---------------------------------------------------------------------------
// Tagged-union encodings
// ---------------------------------------------------------------------------

verus! {

proof fn lemma_members_max_eq_payload(ms: Seq<MemberData>, vls: Seq<Option<LayoutData>>)
    requires
        ms.len() == vls.len(),
        forall|k: int| 0 <= k < ms.len() ==> (#[trigger] ms[k]).size == payload_size(vls[k]),
        forall|k: int| 0 <= k < ms.len() ==> (#[trigger] ms[k]).alignment == payload_align(vls[k]),
    ensures
        members_max_size(ms) == max_payload_size(vls),
        members_max_align(ms) == max_payload_align(vls),
    decreases ms.len(),
{
    if ms.len() > 0 {
        lemma_members_max_eq_payload(ms.drop_last(), vls.drop_last());
    }
}

/// Niche encoding: a tagged union with exactly one payload-carrying variant,
/// at least one empty variant, and a payload with a niche takes the
/// payload's size and alignment unchanged and stores no discriminant.
pub proof fn lemma_niche_encoding(
    types: Seq<TypeDescriptor>,
    id: int,
    policy: LayoutPolicy,
    profile: TargetProfile,
)
    requires
        types[id] matches TypeDescriptor::TaggedUnion { encoding, .. } && (encoding is Auto
            || encoding is Niche),
        variant_layouts_from(
            types,
            types[id]->TaggedUnion_variants@,
            0,
            id,
            policy,
            profile,
        ) is Ok,
        niche_applies(
            variant_layouts_from(
                types,
                types[id]->TaggedUnion_variants@,
                0,
                id,
                policy,
                profile,
            )->Ok_0,
        ),
    ensures
        layout_of(types, id, policy, profile) matches Ok(d) && {
            let vls = variant_layouts_from(
                types,
                types[id]->TaggedUnion_variants@,
                0,
                id,
                policy,
                profile,
            )->Ok_0;
            &&& d.size == payload_data(vls).size
            &&& d.alignment == payload_data(vls).alignment
            &&& d.discriminant is None
        },
{
}

/// Explicit discriminant encoding: when the largest payload size is a
/// multiple of the payload region's alignment, the union's size is exactly
/// the discriminant width plus the largest payload size, rounded up to the
/// union's alignment.
pub proof fn lemma_explicit_discriminant(
    types: Seq<TypeDescriptor>,
    id: int,
    policy: LayoutPolicy,
    profile: TargetProfile,
)
    requires
        profile_wf(profile),
        types[id] matches TypeDescriptor::TaggedUnion { .. },
        layout_of(types, id, policy, profile) matches Ok(d) && d.discriminant is Some
            && members_max_size(d.members) % members_max_align(d.members) == 0,
    ensures
        layout_of(types, id, policy, profile) matches Ok(d) && d.size == align_up(
            d.discriminant->Some_0.width + members_max_size(d.members),
            d.alignment,
        ),
{
    let variants = types[id]->TaggedUnion_variants;
    let encoding = types[id]->TaggedUnion_encoding;
    let d = layout_of(types, id, policy, profile)->Ok_0;
    let vls = variant_layouts_from(types, variants@, 0, id, policy, profile)->Ok_0;
    crate::model::lemma_variant_layouts_wf(types, variants@, 0, id, policy, profile);
    lemma_payload_maxes(vls);
    let dw = discriminant_width(vls.len() as int, encoding, profile);
    crate::model::lemma_discriminant_bytes_ge1(vls.len() as int);
    let da = scalar_align_of(profile, dw as u64)->Some_0;
    crate::profile::lemma_scalar_align_wf(profile, dw as u64);
    crate::align::lemma_pow2_pos(da as int);
    let pa = max_payload_align(vls);
    let pmax = max_payload_size(vls);
    let aln = max_int(da as int, pa);
    lemma_members_max_eq_payload(d.members, vls);
    crate::align::lemma_align_up_add_multiple(dw, pmax, pa);
    assert(aln % pa == 0) by {
        if pa < aln {
            crate::align::lemma_pow2_le_divides(pa, aln);
        } else {
            vstd::arithmetic::div_mod::lemma_mod_multiples_basic(1, pa);
        }
    }
    crate::align::lemma_align_up_coarsen(dw + pmax, pa, aln);
}

} // verus!

// ---------------------------------------------------------------------------
// The optimizing policy never loses to the fixed policy
// ---------------------------------------------------------------------------

verus! {

proof fn lemma_max_align_pointwise_eq(a: Seq<LayoutData>, b: Seq<LayoutData>)
    requires
        a.len() == b.len(),
        forall|k: int| 0 <= k < a.len() ==> (#[trigger] a[k]).alignment == b[k].alignment,
    ensures
        max_align(a) == max_align(b),
    decreases a.len(),
{
    if a.len() > 0 {
        lemma_max_align_pointwise_eq(a.drop_last(), b.drop_last());
    }
}

proof fn lemma_any_niche_pointwise_eq(a: Seq<LayoutData>, b: Seq<LayoutData>)
    requires
        a.len() == b.len(),
        forall|k: int| 0 <= k < a.len() ==> (#[trigger] a[k]).has_niche == b[k].has_niche,
    ensures
        crate::model::any_niche(a) == crate::model::any_niche(b),
    decreases a.len(),
{
    if a.len() > 0 {
        lemma_any_niche_pointwise_eq(a.drop_last(), b.drop_last());
    }
}

proof fn lemma_sum_sizes_pointwise_le(a: Seq<LayoutData>, b: Seq<LayoutData>)
    requires
        a.len() == b.len(),
        forall|k: int| 0 <= k < a.len() ==> (#[trigger] a[k]).size <= b[k].size,
    ensures
        sum_sizes(a) <= sum_sizes(b),
    decreases a.len(),
{
    if a.len() > 0 {
        lemma_sum_sizes_pointwise_le(a.drop_last(), b.drop_last());
    }
}

proof fn lemma_fixed_end_ge_sum(mls: Seq<LayoutData>)
    requires
        datas_wf(mls),
    ensures
        fixed_end(mls) >= sum_sizes(mls),
        sum_sizes(mls) >= 0,
    decreases mls.len(),
{
    if mls.len() > 0 {
        assert(datas_wf(mls.drop_last())) by {
            assert(forall|k: int|
                0 <= k < mls.drop_last().len() ==> mls.drop_last()[k] == #[trigger] mls[k]);
        }
        lemma_fixed_end_ge_sum(mls.drop_last());
        crate::align::lemma_align_up_props(fixed_end(mls.drop_last()), mls.last().alignment);
    }
}

proof fn lemma_payload_folds(a: Seq<Option<LayoutData>>, b: Seq<Option<LayoutData>>)
    requires
        a.len() == b.len(),
        forall|k: int| 0 <= k < a.len() ==> ((#[trigger] a[k]) is Some <==> b[k] is Some),
        forall|k: int| 0 <= k < a.len() ==> payload_size(#[trigger] a[k]) <= payload_size(b[k]),
        forall|k: int| 0 <= k < a.len() ==> payload_align(#[trigger] a[k]) == payload_align(b[k]),
    ensures
        payload_count(a) == payload_count(b),
        max_payload_size(a) <= max_payload_size(b),
        max_payload_align(a) == max_payload_align(b),
    decreases a.len(),
{
    if a.len() > 0 {
        lemma_payload_folds(a.drop_last(), b.drop_last());
    }
}

/// The optimizing policy never produces a larger type than the fixed policy
/// for the same descriptor, and never changes its alignment or whether its
/// representation carries a niche.
pub proof fn lemma_optimized_le_fixed(
    types: Seq<TypeDescriptor>,
    id: int,
    profile: TargetProfile,
)
    requires
        profile_wf(profile),
        layout_of(types, id, LayoutPolicy::Optimized, profile) is Ok,
        layout_of(types, id, LayoutPolicy::Fixed, profile) is Ok,
    ensures
        layout_of(types, id, LayoutPolicy::Optimized, profile)->Ok_0.size <= layout_of(
            types,
            id,
            LayoutPolicy::Fixed,
            profile,
        )->Ok_0.size,
        layout_of(types, id, LayoutPolicy::Optimized, profile)->Ok_0.alignment == layout_of(
            types,
            id,
            LayoutPolicy::Fixed,
            profile,
        )->Ok_0.alignment,
        layout_of(types, id, LayoutPolicy::Optimized, profile)->Ok_0.has_niche == layout_of(
            types,
            id,
            LayoutPolicy::Fixed,
            profile,
        )->Ok_0.has_niche,
    decreases id, 1int, 0int,
{
    let o = layout_of(types, id, LayoutPolicy::Optimized, profile)->Ok_0;
    let f = layout_of(types, id, LayoutPolicy::Fixed, profile)->Ok_0;
    match types[id] {
        TypeDescriptor::Composite { members } => {
            lemma_member_batches_le(types, members@, 0, id, profile);
            let mo = member_layouts_from(
                types,
                members@,
                0,
                id,
                LayoutPolicy::Optimized,
                profile,
            )->Ok_0;
            let mf = member_layouts_from(types, members@, 0, id, LayoutPolicy::Fixed, profile)->Ok_0;
            lemma_member_layouts_wf(types, members@, 0, id, LayoutPolicy::Optimized, profile);
            lemma_member_layouts_wf(types, members@, 0, id, LayoutPolicy::Fixed, profile);
            lemma_max_align_pointwise_eq(mo, mf);
            lemma_any_niche_pointwise_eq(mo, mf);
            lemma_sum_sizes_pointwise_le(mo, mf);
            lemma_fixed_end_ge_sum(mf);
            lemma_fixed_end_ge_sum(mo);
            lemma_max_align_bounds(mo);
            crate::align::lemma_align_up_mono(sum_sizes(mo), fixed_end(mf), max_align(mo));
        },
        TypeDescriptor::FixedArray { element, count } => {
            lemma_optimized_le_fixed(types, element as int, profile);
            let eo = layout_of(types, element as int, LayoutPolicy::Optimized, profile)->Ok_0;
            let ef = layout_of(types, element as int, LayoutPolicy::Fixed, profile)->Ok_0;
            assert(count as int * eo.size <= count as int * ef.size) by (nonlinear_arith)
                requires
                    eo.size <= ef.size,
                    count as int >= 0,
            ;
        },
        TypeDescriptor::TaggedUnion { variants, encoding } => {
            lemma_variant_batches_le(types, variants@, 0, id, profile);
            let vo = variant_layouts_from(
                types,
                variants@,
                0,
                id,
                LayoutPolicy::Optimized,
                profile,
            )->Ok_0;
            let vf = variant_layouts_from(
                types,
                variants@,
                0,
                id,
                LayoutPolicy::Fixed,
                profile,
            )->Ok_0;
            crate::model::lemma_variant_layouts_wf(
                types,
                variants@,
                0,
                id,
                LayoutPolicy::Optimized,
                profile,
            );
            crate::model::lemma_variant_layouts_wf(
                types,
                variants@,
                0,
                id,
                LayoutPolicy::Fixed,
                profile,
            );
            lemma_payload_folds(vo, vf);
            lemma_payload_maxes(vo);
            lemma_payload_maxes(vf);
            assert(niche_applies(vo) == niche_applies(vf) && (niche_applies(vo)
                ==> payload_data(vo).size <= payload_data(vf).size && payload_data(vo).alignment
                == payload_data(vf).alignment)) by {
                if payload_count(vo) == 1 {
                    let i = payload_index(vo);
                    if 0 <= i < vo.len() && vo[i] is Some {
                        lemma_payload_unique(vo, i);
                        lemma_payload_unique(vf, i);
                        assert(payload_size(vo[i]) <= payload_size(vf[i]));
                        assert(payload_align(vo[i]) == payload_align(vf[i]));
                    }
                    if exists|j: int| 0 <= j < vf.len() && vf[j] is Some {
                        let j = choose|j: int| 0 <= j < vf.len() && vf[j] is Some;
                        assert(vo[j] is Some);
                    }
                }
            }
            if (encoding matches TagEncoding::Niche) || ((encoding matches TagEncoding::Auto)
                && niche_applies(vo)) {
            } else if vo.len() == 0 {
            } else {
                let dw = discriminant_width(vo.len() as int, encoding, profile);
                crate::model::lemma_discriminant_bytes_ge1(vo.len() as int);
                let pa = max_payload_align(vo);
                crate::align::lemma_align_up_props(dw, pa);
                let po = align_up(dw, pa);
                let da = scalar_align_of(profile, dw as u64);
                match da {
                    Some(dal) => {
                        crate::profile::lemma_scalar_align_wf(profile, dw as u64);
                        crate::align::lemma_pow2_pos(dal as int);
                        crate::align::lemma_align_up_mono(
                            po + max_payload_size(vo),
                            po + max_payload_size(vf),
                            max_int(dal as int, pa),
                        );
                    },
                    None => {},
                }
            }
        },
        _ => {},
    }
}

/// Member layouts resolved under the optimizing policy are pointwise no
/// larger than under the fixed policy, with the same alignments and niches.
proof fn lemma_member_batches_le(
    types: Seq<TypeDescriptor>,
    members: Seq<Member>,
    k: int,
    id: int,
    profile: TargetProfile,
)
    requires
        profile_wf(profile),
        member_layouts_from(types, members, k, id, LayoutPolicy::Optimized, profile) is Ok,
        member_layouts_from(types, members, k, id, LayoutPolicy::Fixed, profile) is Ok,
    ensures
        ({
            let o = member_layouts_from(types, members, k, id, LayoutPolicy::Optimized, profile)->Ok_0;
            let f = member_layouts_from(types, members, k, id, LayoutPolicy::Fixed, profile)->Ok_0;
            &&& o.len() == f.len()
            &&& forall|j: int|
                0 <= j < o.len() ==> (#[trigger] o[j]).size <= f[j].size && o[j].alignment
                    == f[j].alignment && o[j].has_niche == f[j].has_niche
        }),
    decreases id, 0int, members.len() - k,
{
    if k < 0 || k >= members.len() {
    } else {
        let ty = members[k].ty;
        lemma_optimized_le_fixed(types, ty as int, profile);
        lemma_member_batches_le(types, members, k + 1, id, profile);
        let o = member_layouts_from(types, members, k, id, LayoutPolicy::Optimized, profile)->Ok_0;
        let f = member_layouts_from(types, members, k, id, LayoutPolicy::Fixed, profile)->Ok_0;
        let orest = member_layouts_from(
            types,
            members,
            k + 1,
            id,
            LayoutPolicy::Optimized,
            profile,
        )->Ok_0;
        let frest = member_layouts_from(types, members, k + 1, id, LayoutPolicy::Fixed, profile)->Ok_0;
        assert forall|j: int| 0 <= j < o.len() implies (#[trigger] o[j]).size <= f[j].size
            && o[j].alignment == f[j].alignment && o[j].has_niche == f[j].has_niche by {
            if j > 0 {
                assert(o[j] == orest[j - 1]);
                assert(f[j] == frest[j - 1]);
            }
        }
    }
}

/// Variant payload layouts resolved under the optimizing policy are
/// pointwise no larger than under the fixed policy.
proof fn lemma_variant_batches_le(
    types: Seq<TypeDescriptor>,
    variants: Seq<Variant>,
    k: int,
    id: int,
    profile: TargetProfile,
)
    requires
        profile_wf(profile),
        variant_layouts_from(types, variants, k, id, LayoutPolicy::Optimized, profile) is Ok,
        variant_layouts_from(types, variants, k, id, LayoutPolicy::Fixed, profile) is Ok,
    ensures
        ({
            let o = variant_layouts_from(types, variants, k, id, LayoutPolicy::Optimized, profile)->Ok_0;
            let f = variant_layouts_from(types, variants, k, id, LayoutPolicy::Fixed, profile)->Ok_0;
            &&& o.len() == f.len()
            &&& forall|j: int| 0 <= j < o.len() ==> ((#[trigger] o[j]) is Some <==> f[j] is Some)
            &&& forall|j: int|
                0 <= j < o.len() ==> payload_size(#[trigger] o[j]) <= payload_size(f[j])
                    && payload_align(o[j]) == payload_align(f[j])
            &&& forall|j: int|
                0 <= j < o.len() ==> match (#[trigger] o[j], f[j]) {
                    (Some(lo), Some(lf)) => lo.has_niche == lf.has_niche,
                    _ => true,
                }
        }),
    decreases id, 0int, variants.len() - k,
{
    if k < 0 || k >= variants.len() {
    } else {
        lemma_variant_batches_le(types, variants, k + 1, id, profile);
        let o = variant_layouts_from(types, variants, k, id, LayoutPolicy::Optimized, profile)->Ok_0;
        let f = variant_layouts_from(types, variants, k, id, LayoutPolicy::Fixed, profile)->Ok_0;
        let orest = variant_layouts_from(
            types,
            variants,
            k + 1,
            id,
            LayoutPolicy::Optimized,
            profile,
        )->Ok_0;
        let frest = variant_layouts_from(
            types,
            variants,
            k + 1,
            id,
            LayoutPolicy::Fixed,
            profile,
        )->Ok_0;
        match variants[k].payload {
            None => {},
            Some(p) => {
                lemma_optimized_le_fixed(types, p as int, profile);
            },
        }
        assert forall|j: int| 0 <= j < o.len() implies ((#[trigger] o[j]) is Some <==> f[j]
            is Some) && (payload_size(o[j]) <= payload_size(f[j]) && payload_align(o[j])
            == payload_align(f[j])) && (match (o[j], f[j]) {
            (Some(lo), Some(lf)) => lo.has_niche == lf.has_niche,
            _ => true,
        }) by {
            if j > 0 {
                assert(o[j] == orest[j - 1]);
                assert(f[j] == frest[j - 1]);
            }
        }
    }
}

} // verus!

// ---------------------------------------------------------------------------
// The fixed policy keeps declaration order
// ---------------------------------------------------------------------------

verus! {

/// Under the fixed policy, a composite's members lie in declaration order
/// without overlap: each member ends at or before the next one begins, and
/// the last ends within the composite's size.
pub proof fn lemma_fixed_members_ordered(
    types: Seq<TypeDescriptor>,
    id: int,
    profile: TargetProfile,
)
    requires
        profile_wf(profile),
        types[id] matches TypeDescriptor::Composite { .. },
        layout_of(types, id, LayoutPolicy::Fixed, profile) is Ok,
    ensures
        layout_of(types, id, LayoutPolicy::Fixed, profile) matches Ok(d) && {
            &&& forall|k: int|
                0 <= k < d.members.len() - 1 ==> (#[trigger] d.members[k]).offset
                    + d.members[k].size <= d.members[k + 1].offset
            &&& forall|k: int|
                0 <= k < d.members.len() ==> (#[trigger] d.members[k]).offset + d.members[k].size
                    <= d.size
        },
{
    lemma_layout_wf(types, id, LayoutPolicy::Fixed, profile);
    let members = types[id]->Composite_members;
    let mls = member_layouts_from(types, members@, 0, id, LayoutPolicy::Fixed, profile)->Ok_0;
    lemma_member_layouts_wf(types, members@, 0, id, LayoutPolicy::Fixed, profile);
    let d = layout_of(types, id, LayoutPolicy::Fixed, profile)->Ok_0;
    assert forall|k: int| 0 <= k < d.members.len() - 1 implies (#[trigger] d.members[k]).offset
        + d.members[k].size <= d.members[k + 1].offset by {
        assert(mls.take(k + 1).drop_last() =~= mls.take(k));
        assert(mls.take(k + 1).last() == mls[k]);
        crate::model::lemma_fixed_end_nonneg(mls, k + 1);
        crate::align::lemma_align_up_props(fixed_end(mls.take(k + 1)), mls[k + 1].alignment);
    }
}

} // verus!

// ---------------------------------------------------------------------------
// The optimizing policy never overlaps members
// ---------------------------------------------------------------------------

verus! {

/// Everything placed before `j` is also placed before `i` when `j` itself
/// is placed before `i`, so `i`'s offset clears `j`'s whole region.
proof fn lemma_sum_before_subset(mls: Seq<LayoutData>, j: int, i: int, k: int)
    requires
        datas_wf(mls),
        0 <= i < mls.len(),
        0 <= j < mls.len(),
        crate::model::placed_before(mls, j, i),
        0 <= k <= mls.len(),
    ensures
        crate::model::sum_before(mls, i, k) >= crate::model::sum_before(mls, j, k) + if j < k {
            mls[j].size
        } else {
            0
        },
    decreases k,
{
    if k > 0 {
        lemma_sum_before_subset(mls, j, i, k - 1);
        assert(crate::model::data_wf(mls[k - 1]));
    }
}

/// Under the optimizing policy no two members overlap: one of any two
/// members ends at or before the other begins.
pub proof fn lemma_optimized_members_disjoint(
    types: Seq<TypeDescriptor>,
    id: int,
    profile: TargetProfile,
)
    requires
        profile_wf(profile),
        types[id] matches TypeDescriptor::Composite { .. },
        layout_of(types, id, LayoutPolicy::Optimized, profile) is Ok,
    ensures
        layout_of(types, id, LayoutPolicy::Optimized, profile) matches Ok(d) && forall|i: int, j: int|
            0 <= i < d.members.len() && 0 <= j < d.members.len() && i != j
                ==> (#[trigger] d.members[i]).offset + d.members[i].size <= (
            #[trigger] d.members[j]).offset || d.members[j].offset + d.members[j].size
                <= d.members[i].offset,
{
    let members = types[id]->Composite_members;
    let mls = member_layouts_from(types, members@, 0, id, LayoutPolicy::Optimized, profile)->Ok_0;
    lemma_member_layouts_wf(types, members@, 0, id, LayoutPolicy::Optimized, profile);
    let d = layout_of(types, id, LayoutPolicy::Optimized, profile)->Ok_0;
    assert forall|i: int, j: int|
        0 <= i < d.members.len() && 0 <= j < d.members.len() && i != j implies (
    #[trigger] d.members[i]).offset + d.members[i].size <= (#[trigger] d.members[j]).offset
        || d.members[j].offset + d.members[j].size <= d.members[i].offset by {
        if crate::model::placed_before(mls, j, i) {
            lemma_sum_before_subset(mls, j, i, mls.len() as int);
        } else {
            lemma_sum_before_subset(mls, i, j, mls.len() as int);
        }
    }
}

} // verus!
