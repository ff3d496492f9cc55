//! The layout engine: a registry of type descriptors, a memoization cache,
//! and the verified layout query. Every query's result is proved equal to
//! the mathematical model in `model`.

use vstd::prelude::*;
use vstd::pervasive::VecAdditionalExecFns;
use crate::align::{align_up_u64, max_u64};
use crate::descriptor::{
    descriptor_refs_ok, registry_wf, Member, PointerKind, TagEncoding, TypeDescriptor, Variant,
};
use crate::model::{
    all_variants_uninhabited, any_niche, any_uninhabited, composite_members, data_wf, datas_wf,
    discriminant_bytes, discriminant_width, fits, fixed_end, layout_of,
    lemma_discriminant_bytes_le8, lemma_fixed_end_mono, lemma_layout_of_agree, lemma_layout_wf,
    lemma_max_align_bounds, lemma_payload_count_nonneg, lemma_payload_maxes,
    lemma_payload_unique, lemma_sum_before_in_total, lemma_sum_sizes_mono, max_align,
    max_payload_align, max_payload_size, member_layouts_from, niche_applies, opt_datas_wf,
    payload_count, sum_before, sum_sizes, union_members, variant_layouts_from,
};
use crate::profile::{profile_wf, TargetProfile};
use crate::result::{
    result_view, DiscriminantLayout, LayoutData, LayoutError, LayoutPolicy, LayoutResult,
    MemberLayout,
};

verus! {

/// The views of a batch of member layouts.
pub open spec fn datas_of(s: Seq<LayoutResult>) -> Seq<LayoutData> {
    Seq::new(s.len(), |k: int| s[k]@)
}

/// The views of a batch of optional payload layouts.
pub open spec fn opt_datas_of(s: Seq<Option<LayoutResult>>) -> Seq<Option<LayoutData>> {
    Seq::new(
        s.len(),
        |k: int|
            match s[k] {
                Some(l) => Some(l@),
                None => None,
            },
    )
}

/// Prefixing a resolved batch onto the outcome of the remaining members.
pub open spec fn compose_members(
    pre: Seq<LayoutData>,
    r: Result<Seq<LayoutData>, LayoutError>,
) -> Result<Seq<LayoutData>, LayoutError> {
    match r {
        Ok(s) => Ok(pre + s),
        Err(e) => Err(e),
    }
}

/// Prefixing a resolved batch onto the outcome of the remaining variants.
pub open spec fn compose_variants(
    pre: Seq<Option<LayoutData>>,
    r: Result<Seq<Option<LayoutData>>, LayoutError>,
) -> Result<Seq<Option<LayoutData>>, LayoutError> {
    match r {
        Ok(s) => Ok(pre + s),
        Err(e) => Err(e),
    }
}

/// A cached result, when present, is exactly what the model assigns.
pub open spec fn cache_entry_ok(
    types: Seq<TypeDescriptor>,
    profile: TargetProfile,
    entry: Option<LayoutResult>,
    i: int,
    policy: LayoutPolicy,
) -> bool {
    match entry {
        None => true,
        Some(r) => layout_of(types, i, policy, profile) == Ok::<LayoutData, LayoutError>(r@),
    }
}

/// The layout engine: owns the platform profile, the registry of type
/// descriptors, and one memoization cache per policy. Failed queries are
/// never cached; successful ones are served from the cache thereafter.
pub struct LayoutEngine {
    profile: TargetProfile,
    types: Vec<TypeDescriptor>,
    cache_fixed: Vec<Option<LayoutResult>>,
    cache_optimized: Vec<Option<LayoutResult>>,
}

impl LayoutEngine {
    /// The registered descriptors, for contracts.
    pub closed spec fn types_seq(self) -> Seq<TypeDescriptor> {
        self.types@
    }

    /// The engine's profile, for contracts.
    pub closed spec fn target_profile(self) -> TargetProfile {
        self.profile
    }

    /// The engine's invariant: a well-formed profile, a registry obeying the
    /// reference discipline, and caches that only hold what the model says.
    pub closed spec fn wf(self) -> bool {
        &&& profile_wf(self.profile)
        &&& registry_wf(self.types@)
        &&& self.cache_fixed@.len() == self.types@.len()
        &&& self.cache_optimized@.len() == self.types@.len()
        &&& forall|i: int|
            0 <= i < self.types@.len() ==> cache_entry_ok(
                self.types@,
                self.profile,
                #[trigger] self.cache_fixed@[i],
                i,
                LayoutPolicy::Fixed,
            )
        &&& forall|i: int|
            0 <= i < self.types@.len() ==> cache_entry_ok(
                self.types@,
                self.profile,
                #[trigger] self.cache_optimized@[i],
                i,
                LayoutPolicy::Optimized,
            )
    }

    /// A fresh engine over `profile`, with an empty registry.
    pub fn new(profile: TargetProfile) -> (e: LayoutEngine)
        requires
            profile_wf(profile),
        ensures
            e.wf(),
            e.types_seq() == Seq::<TypeDescriptor>::empty(),
            e.target_profile() == profile,
    {
        let e = LayoutEngine {
            profile,
            types: Vec::new(),
            cache_fixed: Vec::new(),
            cache_optimized: Vec::new(),
        };
        proof {
            assert(e.types@ =~= Seq::<TypeDescriptor>::empty());
        }
        e
    }

    /// Appends a descriptor already known to obey the reference discipline.
    fn push_checked(&mut self, desc: TypeDescriptor) -> (id: usize)
        requires
            old(self).wf(),
            descriptor_refs_ok(desc, old(self).types_seq().len() as int),
        ensures
            final(self).wf(),
            final(self).target_profile() == old(self).target_profile(),
            id == old(self).types_seq().len(),
            final(self).types_seq() == old(self).types_seq().push(desc),
    {
        let id = self.types.len();
        let ghost ot = self.types@;
        self.types.push(desc);
        self.cache_fixed.push(None);
        self.cache_optimized.push(None);
        proof {
            let nt = self.types@;
            assert(registry_wf(nt)) by {
                assert forall|i: int| 0 <= i < nt.len() implies descriptor_refs_ok(
                    #[trigger] nt[i],
                    i,
                ) by {
                    if i < ot.len() {
                        assert(nt[i] == ot[i]);
                    } else {
                        assert(nt[i] == desc);
                    }
                }
            }
            assert forall|i: int| 0 <= i < nt.len() implies cache_entry_ok(
                nt,
                self.profile,
                #[trigger] self.cache_fixed@[i],
                i,
                LayoutPolicy::Fixed,
            ) by {
                if i < ot.len() {
                    assert(self.cache_fixed@[i] == old(self).cache_fixed@[i]);
                    match old(self).cache_fixed@[i] {
                        Some(r) => {
                            lemma_layout_of_agree(ot, nt, i, LayoutPolicy::Fixed, self.profile);
                        },
                        None => {},
                    }
                }
            }
            assert forall|i: int| 0 <= i < nt.len() implies cache_entry_ok(
                nt,
                self.profile,
                #[trigger] self.cache_optimized@[i],
                i,
                LayoutPolicy::Optimized,
            ) by {
                if i < ot.len() {
                    assert(self.cache_optimized@[i] == old(self).cache_optimized@[i]);
                    match old(self).cache_optimized@[i] {
                        Some(r) => {
                            lemma_layout_of_agree(ot, nt, i, LayoutPolicy::Optimized, self.profile);
                        },
                        None => {},
                    }
                }
            }
        }
        id
    }

    /// Registers a descriptor and returns its index, or `None` when the
    /// descriptor refers to a type that is not yet registered (only earlier
    /// indices and the new type's own index may be referred to; pointer
    /// targets are exempt).
    pub fn add_type(&mut self, desc: TypeDescriptor) -> (r: Option<usize>)
        requires
            old(self).wf(),
        ensures
            final(self).wf(),
            final(self).target_profile() == old(self).target_profile(),
            match r {
                Some(id) => {
                    &&& id == old(self).types_seq().len()
                    &&& descriptor_refs_ok(desc, id as int)
                    &&& final(self).types_seq() == old(self).types_seq().push(desc)
                },
                None => {
                    &&& !descriptor_refs_ok(desc, old(self).types_seq().len() as int)
                    &&& final(self).types_seq() == old(self).types_seq()
                },
            },
    {
        let id = self.types.len();
        if !refs_ok(&desc, id) {
            return None;
        }
        Some(self.push_checked(desc))
    }

    /// Substitutes a sized tail type into a generic-tail composite,
    /// registering and returning the resulting fully instantiated composite.
    /// Fails with `InvalidDstPlacement` when `generic` is not a generic-tail
    /// type or when the substituted tail is itself dynamically sized.
    pub fn instantiate(&mut self, generic: usize, tail: usize, tail_name: String) -> (r: Result<
        usize,
        LayoutError,
    >)
        requires
            old(self).wf(),
            generic < old(self).types_seq().len(),
            tail < old(self).types_seq().len(),
        ensures
            final(self).wf(),
            final(self).target_profile() == old(self).target_profile(),
            match r {
                Ok(id) => {
                    &&& old(self).types_seq()[generic as int] matches TypeDescriptor::GenericTail {
                        head_members,
                        ..
                    } && {
                        &&& !(old(self).types_seq()[tail as int]
                            matches TypeDescriptor::GenericTail { .. })
                        &&& id == old(self).types_seq().len()
                        &&& final(self).types_seq().drop_last() == old(self).types_seq()
                        &&& final(self).types_seq().last()
                            matches TypeDescriptor::Composite { members } && members@
                            == head_members@ + seq![Member { name: tail_name, ty: tail }]
                    }
                },
                Err(e) => {
                    &&& e == LayoutError::InvalidDstPlacement
                    &&& final(self).types_seq() == old(self).types_seq()
                    &&& (!(old(self).types_seq()[generic as int]
                        matches TypeDescriptor::GenericTail { .. }) || old(
                        self,
                    ).types_seq()[tail as int] matches TypeDescriptor::GenericTail { .. })
                },
            },
    {
        let new_members: Vec<Member>;
        match &self.types[generic] {
            TypeDescriptor::GenericTail { head_members, .. } => {
                match &self.types[tail] {
                    TypeDescriptor::GenericTail { .. } => {
                        return Err(LayoutError::InvalidDstPlacement);
                    },
                    _ => {},
                }
                let mut ms: Vec<Member> = Vec::new();
                let mut k: usize = 0;
                while k < head_members.len()
                    invariant
                        k <= head_members@.len(),
                        ms@ == head_members@.take(k as int),
                    decreases head_members@.len() - k,
                {
                    ms.push(
                        Member { name: head_members[k].name.clone(), ty: head_members[k].ty },
                    );
                    proof {
                        assert(ms@ =~= head_members@.take(k as int + 1));
                    }
                    k += 1;
                }
                proof {
                    assert(head_members@.take(head_members@.len() as int) =~= head_members@);
                }
                ms.push(Member { name: tail_name, ty: tail });
                new_members = ms;
            },
            _ => {
                return Err(LayoutError::InvalidDstPlacement);
            },
        }
        let ghost hm = match self.types@[generic as int] {
            TypeDescriptor::GenericTail { head_members, .. } => head_members,
            _ => arbitrary(),
        };
        let desc = TypeDescriptor::Composite { members: new_members };
        proof {
            let id = self.types@.len() as int;
            assert(descriptor_refs_ok(self.types@[generic as int], generic as int));
            assert forall|k: int| 0 <= k < new_members@.len() implies (
            #[trigger] new_members@[k]).ty <= id by {
                if k < hm@.len() {
                    assert(new_members@[k] == hm@[k]);
                }
            }
        }
        let id = self.push_checked(desc);
        proof {
            assert(final(self).types_seq().drop_last() =~= old(self).types_seq());
        }
        Ok(id)
    }

    /// Checks a discriminant value against a tagged union's declared
    /// variants: constructing a value whose discriminant names no variant is
    /// rejected, never represented.
    pub fn check_discriminant(&self, id: usize, discriminant: u64) -> (r: Result<
        (),
        LayoutError,
    >)
        requires
            self.wf(),
            id < self.types_seq().len(),
        ensures
            r is Ok <==> (self.types_seq()[id as int] matches TypeDescriptor::TaggedUnion {
                variants,
                ..
            } && discriminant < variants@.len()),
            r is Err ==> r == Err::<(), LayoutError>(LayoutError::UndefinedDiscriminant),
    {
        match &self.types[id] {
            TypeDescriptor::TaggedUnion { variants, .. } => {
                if discriminant < variants.len() as u64 {
                    Ok(())
                } else {
                    Err(LayoutError::UndefinedDiscriminant)
                }
            },
            _ => Err(LayoutError::UndefinedDiscriminant),
        }
    }

    /// Computes the layout of type `id` under `policy`, serving and filling
    /// the memoization cache. The result — success or error — is exactly
    /// what the model `layout_of` assigns.
    pub fn layout(&mut self, id: usize, policy: LayoutPolicy) -> (r: Result<
        LayoutResult,
        LayoutError,
    >)
        requires
            old(self).wf(),
            id < old(self).types_seq().len(),
        ensures
            final(self).wf(),
            final(self).types_seq() == old(self).types_seq(),
            final(self).target_profile() == old(self).target_profile(),
            result_view(r) == layout_of(
                old(self).types_seq(),
                id as int,
                policy,
                old(self).target_profile(),
            ),
    {
        match policy {
            LayoutPolicy::Fixed => {
                match &self.cache_fixed[id] {
                    Some(c) => {
                        return Ok(c.duplicate());
                    },
                    None => {},
                }
            },
            LayoutPolicy::Optimized => {
                match &self.cache_optimized[id] {
                    Some(c) => {
                        return Ok(c.duplicate());
                    },
                    None => {},
                }
            },
        }
        let r = self.layout_rec(id, policy);
        match &r {
            Ok(lr) => {
                let copy = lr.duplicate();
                match policy {
                    LayoutPolicy::Fixed => {
                        self.cache_fixed.set(id, Some(copy));
                    },
                    LayoutPolicy::Optimized => {
                        self.cache_optimized.set(id, Some(copy));
                    },
                }
            },
            Err(_) => {},
        }
        r
    }

    /// The uncached recursive layout computation.
    fn layout_rec(&self, id: usize, policy: LayoutPolicy) -> (r: Result<
        LayoutResult,
        LayoutError,
    >)
        requires
            self.wf(),
            id < self.types_seq().len(),
        ensures
            result_view(r) == layout_of(
                self.types_seq(),
                id as int,
                policy,
                self.target_profile(),
            ),
        decreases id, 1int,
    {
        let ghost types = self.types_seq();
        let ghost profile = self.target_profile();
        match &self.types[id] {
            TypeDescriptor::Scalar { width } => {
                match self.profile.scalar_alignment(*width) {
                    None => Err(LayoutError::UnsupportedProfile),
                    Some(a) => {
                        let lr = LayoutResult {
                            size: *width,
                            alignment: a,
                            members: Vec::new(),
                            representation: policy,
                            discriminant: None,
                            uninhabited: false,
                            has_niche: false,
                        };
                        proof {
                            assert(lr@ =~= layout_of(types, id as int, policy, profile)->Ok_0);
                        }
                        Ok(lr)
                    },
                }
            },
            TypeDescriptor::Pointer { kind, .. } => {
                let pw = self.profile.pointer_width;
                let size = match kind {
                    PointerKind::Thin => pw,
                    _ => {
                        match pw.checked_mul(2) {
                            Some(s) => s,
                            None => {
                                return Err(LayoutError::SizeOverflow);
                            },
                        }
                    },
                };
                let lr = LayoutResult {
                    size,
                    alignment: pw,
                    members: Vec::new(),
                    representation: policy,
                    discriminant: None,
                    uninhabited: false,
                    has_niche: true,
                };
                proof {
                    assert(lr@ =~= layout_of(types, id as int, policy, profile)->Ok_0);
                }
                Ok(lr)
            },
            TypeDescriptor::Composite { members } => self.composite_layout(id, members, policy),
            TypeDescriptor::FixedArray { element, count } => {
                let element = *element;
                let count = *count;
                if element >= id {
                    return Err(LayoutError::CyclicLayout);
                }
                let el = match self.layout_rec(element, policy) {
                    Err(e) => {
                        return Err(e);
                    },
                    Ok(el) => el,
                };
                let size = match count.checked_mul(el.size) {
                    Some(s) => s,
                    None => {
                        return Err(LayoutError::SizeOverflow);
                    },
                };
                let lr = LayoutResult {
                    size,
                    alignment: el.alignment,
                    members: Vec::new(),
                    representation: policy,
                    discriminant: None,
                    uninhabited: count > 0 && el.uninhabited,
                    has_niche: count > 0 && el.has_niche,
                };
                proof {
                    assert(lr@ =~= layout_of(types, id as int, policy, profile)->Ok_0);
                }
                Ok(lr)
            },
            TypeDescriptor::TaggedUnion { variants, encoding } => {
                let encoding = *encoding;
                self.union_layout_rec(id, variants, encoding, policy)
            },
            TypeDescriptor::GenericTail { .. } => Err(LayoutError::InvalidDstPlacement),
            TypeDescriptor::Uninhabited => {
                let lr = LayoutResult {
                    size: 0,
                    alignment: 1,
                    members: Vec::new(),
                    representation: policy,
                    discriminant: None,
                    uninhabited: true,
                    has_niche: false,
                };
                proof {
                    assert(lr@ =~= layout_of(types, id as int, policy, profile)->Ok_0);
                }
                Ok(lr)
            },
            TypeDescriptor::ZeroSized => {
                let lr = LayoutResult {
                    size: 0,
                    alignment: 1,
                    members: Vec::new(),
                    representation: policy,
                    discriminant: None,
                    uninhabited: false,
                    has_niche: false,
                };
                proof {
                    assert(lr@ =~= layout_of(types, id as int, policy, profile)->Ok_0);
                }
                Ok(lr)
            },
        }
    }

    /// Resolves a composite's members and places them under `policy`.
    #[verifier::loop_isolation(false)]
    fn composite_layout(&self, id: usize, members: &Vec<Member>, policy: LayoutPolicy) -> (r:
        Result<LayoutResult, LayoutError>)
        requires
            self.wf(),
            id < self.types_seq().len(),
            self.types_seq()[id as int] == (TypeDescriptor::Composite { members: *members }),
        ensures
            result_view(r) == layout_of(
                self.types_seq(),
                id as int,
                policy,
                self.target_profile(),
            ),
        decreases id, 0int,
    {
        let ghost types = self.types_seq();
        let ghost profile = self.target_profile();
        let ghost mseq = members@;

        // Resolve each member's own layout, in declaration order.
        let n = members.len();
        let mut mls: Vec<LayoutResult> = Vec::new();
        let mut k: usize = 0;
        while k < n
            invariant
                self.wf(),
                id < types.len(),
                types == self.types_seq(),
                profile == self.target_profile(),
                mseq == members@,
                types[id as int] == (TypeDescriptor::Composite { members: *members }),
                n == mseq.len(),
                k <= n,
                mls@.len() == k,
                member_layouts_from(types, mseq, 0, id as int, policy, profile) == compose_members(
                    datas_of(mls@),
                    member_layouts_from(types, mseq, k as int, id as int, policy, profile),
                ),
                datas_wf(datas_of(mls@)),
            decreases n - k,
        {
            let ty = members[k].ty;
            if ty >= id {
                proof {
                    assert(member_layouts_from(types, mseq, k as int, id as int, policy, profile)
                        == Err::<Seq<LayoutData>, LayoutError>(LayoutError::CyclicLayout));
                    assert(layout_of(types, id as int, policy, profile) == Err::<
                        LayoutData,
                        LayoutError,
                    >(LayoutError::CyclicLayout));
                }
                return Err(LayoutError::CyclicLayout);
            }
            match self.layout_rec(ty, policy) {
                Err(e) => {
                    proof {
                        assert(member_layouts_from(
                            types,
                            mseq,
                            k as int,
                            id as int,
                            policy,
                            profile,
                        ) == Err::<Seq<LayoutData>, LayoutError>(e));
                        assert(layout_of(types, id as int, policy, profile) == Err::<
                            LayoutData,
                            LayoutError,
                        >(e));
                    }
                    return Err(e);
                },
                Ok(ml) => {
                    proof {
                        lemma_layout_wf(types, ty as int, policy, profile);
                        let pre = datas_of(mls@);
                        let rest = member_layouts_from(
                            types,
                            mseq,
                            k as int + 1,
                            id as int,
                            policy,
                            profile,
                        );
                        assert(datas_of(mls@.push(ml)) =~= pre + seq![ml@]);
                        match rest {
                            Ok(restd) => {
                                assert(pre + (seq![ml@] + restd) =~= (pre + seq![ml@]) + restd);
                            },
                            Err(_) => {},
                        }
                        assert(datas_wf(datas_of(mls@.push(ml)))) by {
                            let nd = datas_of(mls@.push(ml));
                            assert forall|j: int| 0 <= j < nd.len() implies data_wf(
                                #[trigger] nd[j],
                            ) by {
                                if j < mls@.len() {
                                    assert(nd[j] == datas_of(mls@)[j]);
                                } else {
                                    assert(nd[j] == ml@);
                                }
                            }
                        }
                    }
                    mls.push(ml);
                },
            }
            k += 1;
        }
        let ghost mld = datas_of(mls@);
        proof {
            assert(mld + Seq::<LayoutData>::empty() =~= mld);
            assert(member_layouts_from(types, mseq, 0, id as int, policy, profile) == Ok::<
                Seq<LayoutData>,
                LayoutError,
            >(mld));
            lemma_max_align_bounds(mld);
        }

        // The aggregate's alignment: the largest member alignment.
        let mut aln: u64 = 1;
        let mut k: usize = 0;
        proof {
            assert(mld.take(0) =~= Seq::<LayoutData>::empty());
        }
        while k < n
            invariant
                k <= n,
                n == mls@.len(),
                mld == datas_of(mls@),
                datas_wf(mld),
                aln as int == max_align(mld.take(k as int)),
            decreases n - k,
        {
            proof {
                assert(mld.take(k as int + 1).drop_last() =~= mld.take(k as int));
                assert(mld.take(k as int + 1).last() == mld[k as int]);
            }
            aln = max_u64(aln, mls[k].alignment);
            k += 1;
        }
        proof {
            assert(mld.take(n as int) =~= mld);
        }

        // Propagate the uninhabited and niche flags.
        let mut unin = false;
        let mut niche = false;
        let mut k: usize = 0;
        proof {
            assert(mld.take(0) =~= Seq::<LayoutData>::empty());
        }
        while k < n
            invariant
                k <= n,
                n == mls@.len(),
                mld == datas_of(mls@),
                unin == any_uninhabited(mld.take(k as int)),
                niche == any_niche(mld.take(k as int)),
            decreases n - k,
        {
            proof {
                assert(mld.take(k as int + 1).drop_last() =~= mld.take(k as int));
                assert(mld.take(k as int + 1).last() == mld[k as int]);
            }
            unin = unin || mls[k].uninhabited;
            niche = niche || mls[k].has_niche;
            k += 1;
        }

        // Assign offsets and assemble the member table.
        let mut out: Vec<MemberLayout> = Vec::new();
        let end: u64;
        match policy {
            LayoutPolicy::Fixed => {
                let mut cur: u64 = 0;
                let mut k: usize = 0;
                proof {
                    assert(mld.take(0) =~= Seq::<LayoutData>::empty());
                }
                while k < n
                    invariant
                        k <= n,
                        n == mls@.len(),
                        n == mseq.len(),
                        mseq == members@,
                        types == self.types_seq(),
                        profile == self.target_profile(),
                        id < types.len(),
                        types[id as int] == (TypeDescriptor::Composite { members: *members }),
                        member_layouts_from(types, mseq, 0, id as int, policy, profile) == Ok::<
                            Seq<LayoutData>,
                            LayoutError,
                        >(mld),
                        mld == datas_of(mls@),
                        datas_wf(mld),
                        aln as int == max_align(mld),
                        cur as int == fixed_end(mld.take(k as int)),
                        out@.len() == k,
                        forall|j: int|
                            0 <= j < k ==> #[trigger] out@[j]@ == composite_members(
                                mseq,
                                mld,
                                LayoutPolicy::Fixed,
                            )[j],
                    decreases n - k,
                {
                    let a = mls[k].alignment;
                    let s = mls[k].size;
                    proof {
                        assert(data_wf(mld[k as int]));
                        lemma_fixed_end_mono(mld, 0, k as int);
                    }
                    let off = match align_up_u64(cur, a) {
                        Some(v) => v,
                        None => {
                            proof {
                                crate::align::lemma_align_up_props(cur as int, a as int);
                                overflow_fixed(mld, k as int, aln as int);
                                assert(layout_of(types, id as int, policy, profile) == Err::<
                                    LayoutData,
                                    LayoutError,
                                >(LayoutError::SizeOverflow));
                            }
                            return Err(LayoutError::SizeOverflow);
                        },
                    };
                    proof {
                        assert(mld.take(k as int + 1).drop_last() =~= mld.take(k as int));
                        assert(mld.take(k as int + 1).last() == mld[k as int]);
                    }
                    let newcur = match off.checked_add(s) {
                        Some(v) => v,
                        None => {
                            proof {
                                overflow_fixed(mld, k as int, aln as int);
                                assert(layout_of(types, id as int, policy, profile) == Err::<
                                    LayoutData,
                                    LayoutError,
                                >(LayoutError::SizeOverflow));
                            }
                            return Err(LayoutError::SizeOverflow);
                        },
                    };
                    out.push(
                        MemberLayout { name: members[k].name.clone(), offset: off, size: s, alignment: a },
                    );
                    cur = newcur;
                    k += 1;
                }
                proof {
                    assert(mld.take(n as int) =~= mld);
                }
                end = cur;
            },
            LayoutPolicy::Optimized => {
                // Total of the sizes: the optimizing order packs with no
                // padding at all.
                let mut tot: u64 = 0;
                let mut k: usize = 0;
                proof {
                    assert(mld.take(0) =~= Seq::<LayoutData>::empty());
                }
                while k < n
                    invariant
                        k <= n,
                        n == mls@.len(),
                        n == mseq.len(),
                        mseq == members@,
                        types == self.types_seq(),
                        profile == self.target_profile(),
                        id < types.len(),
                        types[id as int] == (TypeDescriptor::Composite { members: *members }),
                        member_layouts_from(types, mseq, 0, id as int, policy, profile) == Ok::<
                            Seq<LayoutData>,
                            LayoutError,
                        >(mld),
                        mld == datas_of(mls@),
                        datas_wf(mld),
                        aln as int == max_align(mld),
                        tot as int == sum_sizes(mld.take(k as int)),
                    decreases n - k,
                {
                    proof {
                        assert(mld.take(k as int + 1).drop_last() =~= mld.take(k as int));
                        assert(mld.take(k as int + 1).last() == mld[k as int]);
                    }
                    tot = match tot.checked_add(mls[k].size) {
                        Some(v) => v,
                        None => {
                            proof {
                                lemma_sum_sizes_mono(mld, k as int + 1, mld.len() as int);
                                assert(mld.take(mld.len() as int) =~= mld);
                                lemma_max_align_bounds(mld);
                                crate::align::lemma_align_up_props(sum_sizes(mld), max_align(mld));
                                assert(layout_of(types, id as int, policy, profile) == Err::<
                                    LayoutData,
                                    LayoutError,
                                >(LayoutError::SizeOverflow));
                            }
                            return Err(LayoutError::SizeOverflow);
                        },
                    };
                    k += 1;
                }
                proof {
                    assert(mld.take(n as int) =~= mld);
                }

                // Each member's offset: the sizes of everything placed
                // before it.
                let mut i: usize = 0;
                while i < n
                    invariant
                        i <= n,
                        n == mls@.len(),
                        n == mseq.len(),
                        mseq == members@,
                        mld == datas_of(mls@),
                        datas_wf(mld),
                        tot as int == sum_sizes(mld),
                        out@.len() == i,
                        forall|j: int|
                            0 <= j < i ==> #[trigger] out@[j]@ == composite_members(
                                mseq,
                                mld,
                                LayoutPolicy::Optimized,
                            )[j],
                    decreases n - i,
                {
                    let mut acc: u64 = 0;
                    let mut j: usize = 0;
                    let ai = mls[i].alignment;
                    while j < n
                        invariant
                            j <= n,
                            i < n,
                            n == mls@.len(),
                            mld == datas_of(mls@),
                            datas_wf(mld),
                            tot as int == sum_sizes(mld),
                            ai == mls@[i as int].alignment,
                            acc as int == sum_before(mld, i as int, j as int),
                        decreases n - j,
                    {
                        proof {
                            assert(data_wf(mld[j as int]));
                            lemma_sum_before_in_total(mld, i as int, j as int + 1);
                            lemma_sum_sizes_mono(mld, j as int + 1, mld.len() as int);
                            assert(mld.take(mld.len() as int) =~= mld);
                        }
                        if mls[j].alignment > ai || (mls[j].alignment == ai && j < i) {
                            acc = acc + mls[j].size;
                        }
                        j += 1;
                    }
                    out.push(
                        MemberLayout {
                            name: members[i].name.clone(),
                            offset: acc,
                            size: mls[i].size,
                            alignment: ai,
                        },
                    );
                    i += 1;
                }
                end = tot;
            },
        }

        // Round the total size up to the aggregate alignment.
        let size = match align_up_u64(end, aln) {
            Some(v) => v,
            None => {
                return Err(LayoutError::SizeOverflow);
            },
        };
        let lr = LayoutResult {
            size,
            alignment: aln,
            members: out,
            representation: policy,
            discriminant: None,
            uninhabited: unin,
            has_niche: niche,
        };
        proof {
            assert(lr@.members =~= composite_members(mseq, mld, policy));
            assert(lr@ =~= layout_of(types, id as int, policy, profile)->Ok_0);
        }
        Ok(lr)
    }

    /// Resolves a tagged union's variant payloads and selects its tag
    /// encoding.
    #[verifier::loop_isolation(false)]
    #[verifier::rlimit(100)]
    fn union_layout_rec(
        &self,
        id: usize,
        variants: &Vec<Variant>,
        encoding: TagEncoding,
        policy: LayoutPolicy,
    ) -> (r: Result<LayoutResult, LayoutError>)
        requires
            self.wf(),
            id < self.types_seq().len(),
            self.types_seq()[id as int] == (TypeDescriptor::TaggedUnion {
                variants: *variants,
                encoding,
            }),
        ensures
            result_view(r) == layout_of(
                self.types_seq(),
                id as int,
                policy,
                self.target_profile(),
            ),
        decreases id, 0int,
    {
        let ghost types = self.types_seq();
        let ghost profile = self.target_profile();
        let ghost vseq = variants@;

        // Resolve each payload's layout, in variant order.
        let n = variants.len();
        let mut vls: Vec<Option<LayoutResult>> = Vec::new();
        let mut k: usize = 0;
        while k < n
            invariant
                self.wf(),
                id < types.len(),
                types == self.types_seq(),
                profile == self.target_profile(),
                vseq == variants@,
                types[id as int] == (TypeDescriptor::TaggedUnion {
                    variants: *variants,
                    encoding,
                }),
                n == vseq.len(),
                k <= n,
                vls@.len() == k,
                variant_layouts_from(types, vseq, 0, id as int, policy, profile)
                    == compose_variants(
                    opt_datas_of(vls@),
                    variant_layouts_from(types, vseq, k as int, id as int, policy, profile),
                ),
                opt_datas_wf(opt_datas_of(vls@)),
            decreases n - k,
        {
            let ghost pre = opt_datas_of(vls@);
            let ghost rest = variant_layouts_from(
                types,
                vseq,
                k as int + 1,
                id as int,
                policy,
                profile,
            );
            match variants[k].payload {
                None => {
                    proof {
                        assert(opt_datas_of(vls@.push(None)) =~= pre + seq![
                            None::<LayoutData>,
                        ]);
                        match rest {
                            Ok(restd) => {
                                assert(pre + (seq![None::<LayoutData>] + restd) =~= (pre + seq![
                                    None::<LayoutData>,
                                ]) + restd);
                            },
                            Err(_) => {},
                        }
                        opt_wf_push(vls@, None);
                    }
                    vls.push(None);
                },
                Some(p) => {
                    if p >= id {
                        proof {
                            assert(variant_layouts_from(
                                types,
                                vseq,
                                k as int,
                                id as int,
                                policy,
                                profile,
                            ) == Err::<Seq<Option<LayoutData>>, LayoutError>(
                                LayoutError::CyclicLayout,
                            ));
                            assert(layout_of(types, id as int, policy, profile) == Err::<
                                LayoutData,
                                LayoutError,
                            >(LayoutError::CyclicLayout));
                        }
                        return Err(LayoutError::CyclicLayout);
                    }
                    match self.layout_rec(p, policy) {
                        Err(e) => {
                            proof {
                                assert(variant_layouts_from(
                                    types,
                                    vseq,
                                    k as int,
                                    id as int,
                                    policy,
                                    profile,
                                ) == Err::<Seq<Option<LayoutData>>, LayoutError>(e));
                                assert(layout_of(types, id as int, policy, profile) == Err::<
                                    LayoutData,
                                    LayoutError,
                                >(e));
                            }
                            return Err(e);
                        },
                        Ok(pl) => {
                            proof {
                                lemma_layout_wf(types, p as int, policy, profile);
                                assert(opt_datas_of(vls@.push(Some(pl))) =~= pre + seq![
                                    Some(pl@),
                                ]);
                                match rest {
                                    Ok(restd) => {
                                        assert(pre + (seq![Some(pl@)] + restd) =~= (pre + seq![
                                            Some(pl@),
                                        ]) + restd);
                                    },
                                    Err(_) => {},
                                }
                                opt_wf_push(vls@, Some(pl));
                            }
                            vls.push(Some(pl));
                        },
                    }
                },
            }
            k += 1;
        }
        let ghost vld = opt_datas_of(vls@);
        proof {
            assert(vld + Seq::<Option<LayoutData>>::empty() =~= vld);
            assert(variant_layouts_from(types, vseq, 0, id as int, policy, profile) == Ok::<
                Seq<Option<LayoutData>>,
                LayoutError,
            >(vld));
            lemma_payload_maxes(vld);
        }

        // Count payload-carrying variants and find the payload, if unique.
        let mut pcount: usize = 0;
        let mut pidx: usize = 0;
        let mut found = false;
        let mut k: usize = 0;
        proof {
            assert(vld.take(0) =~= Seq::<Option<LayoutData>>::empty());
        }
        while k < n
            invariant
                k <= n,
                n == vls@.len(),
                vld == opt_datas_of(vls@),
                pcount as int == payload_count(vld.take(k as int)),
                pcount <= k,
                found == (payload_count(vld.take(k as int)) >= 1),
                found ==> pidx < k && vld[pidx as int] is Some,
            decreases n - k,
        {
            proof {
                assert(vld.take(k as int + 1).drop_last() =~= vld.take(k as int));
                assert(vld.take(k as int + 1).last() == vld[k as int]);
                lemma_payload_count_nonneg(vld.take(k as int));
            }
            match &vls[k] {
                Some(_) => {
                    if !found {
                        pidx = k;
                        found = true;
                    }
                    pcount += 1;
                },
                None => {},
            }
            k += 1;
        }
        proof {
            assert(vld.take(n as int) =~= vld);
        }

        // Is the union uninhabited: every variant must be.
        let mut unin = true;
        let mut k: usize = 0;
        proof {
            assert(vld.take(0) =~= Seq::<Option<LayoutData>>::empty());
        }
        while k < n
            invariant
                k <= n,
                n == vls@.len(),
                vld == opt_datas_of(vls@),
                unin == all_variants_uninhabited(vld.take(k as int)),
            decreases n - k,
        {
            proof {
                assert(vld.take(k as int + 1).drop_last() =~= vld.take(k as int));
                assert(vld.take(k as int + 1).last() == vld[k as int]);
            }
            match &vls[k] {
                Some(l) => {
                    unin = unin && l.uninhabited;
                },
                None => {
                    unin = false;
                },
            }
            k += 1;
        }
        proof {
            assert(vld.take(n as int) =~= vld);
        }

        // Does niche encoding apply?
        let niche_ok: bool;
        if pcount == 1 && n >= 2 {
            match &vls[pidx] {
                Some(pl) => {
                    proof {
                        lemma_payload_unique(vld, pidx as int);
                    }
                    niche_ok = pl.has_niche;
                },
                None => {
                    proof {
                        assert(false);
                    }
                    niche_ok = false;
                },
            }
        } else {
            niche_ok = false;
        }
        proof {
            assert(niche_ok == niche_applies(vld));
        }

        let force_niche = match encoding {
            TagEncoding::Niche => true,
            _ => false,
        };
        let auto = match encoding {
            TagEncoding::Auto => true,
            _ => false,
        };
        if force_niche && !niche_ok {
            return Err(LayoutError::NicheExhausted);
        }
        if force_niche || (auto && niche_ok) {
            // Niche encoding: the union borrows the payload's representation
            // wholesale; no discriminant is stored.
            let (psize, palign) = match &vls[pidx] {
                Some(pl) => (pl.size, pl.alignment),
                None => {
                    proof {
                        assert(false);
                    }
                    (0, 1)
                },
            };
            let out = build_variant_table(variants, &vls, 0, Ghost(vld));
            let lr = LayoutResult {
                size: psize,
                alignment: palign,
                members: out,
                representation: policy,
                discriminant: None,
                uninhabited: unin,
                has_niche: false,
            };
            proof {
                lemma_payload_unique(vld, pidx as int);
                assert(lr@.members =~= union_members(vseq, vld, 0));
                assert(lr@ =~= layout_of(types, id as int, policy, profile)->Ok_0);
            }
            return Ok(lr);
        }
        if n == 0 {
            let lr = LayoutResult {
                size: 0,
                alignment: 1,
                members: Vec::new(),
                representation: policy,
                discriminant: None,
                uninhabited: true,
                has_niche: false,
            };
            proof {
                assert(lr@ =~= layout_of(types, id as int, policy, profile)->Ok_0);
            }
            return Ok(lr);
        }

        // Explicit discriminant: wide enough for the variant count, at least
        // as wide as requested (or the profile's default).
        let needed = discriminant_bytes_u64(n as u64);
        let requested = match encoding {
            TagEncoding::Explicit { width: Some(w) } => w,
            _ => self.profile.default_discriminant_width,
        };
        let dw = max_u64(requested, needed);
        let da = match self.profile.scalar_alignment(dw) {
            Some(a) => a,
            None => {
                return Err(LayoutError::UnsupportedProfile);
            },
        };
        proof {
            crate::profile::lemma_scalar_align_wf(profile, dw);
            crate::align::lemma_pow2_pos(da as int);
        }

        // The payload region's demands: the largest payload size and
        // alignment over all variants.
        let mut pmax: u64 = 0;
        let mut pa: u64 = 1;
        let mut k: usize = 0;
        proof {
            assert(vld.take(0) =~= Seq::<Option<LayoutData>>::empty());
        }
        while k < n
            invariant
                k <= n,
                n == vls@.len(),
                vld == opt_datas_of(vls@),
                pmax as int == max_payload_size(vld.take(k as int)),
                pa as int == max_payload_align(vld.take(k as int)),
            decreases n - k,
        {
            proof {
                assert(vld.take(k as int + 1).drop_last() =~= vld.take(k as int));
                assert(vld.take(k as int + 1).last() == vld[k as int]);
            }
            match &vls[k] {
                Some(l) => {
                    pmax = max_u64(pmax, l.size);
                    pa = max_u64(pa, l.alignment);
                },
                None => {
                    pa = max_u64(pa, 1);
                },
            }
            k += 1;
        }
        proof {
            assert(vld.take(n as int) =~= vld);
        }

        let ghost dwi = discriminant_width(vld.len() as int, encoding, profile);
        proof {
            lemma_discriminant_bytes_le8(vld.len() as int);
            crate::model::lemma_discriminant_bytes_ge1(vld.len() as int);
            assert(dw as int == dwi);
        }
        let po = match align_up_u64(dw, pa) {
            Some(v) => v,
            None => {
                proof {
                    overflow_union(vld, dwi, da as int);
                }
                return Err(LayoutError::SizeOverflow);
            },
        };
        let end = match po.checked_add(pmax) {
            Some(v) => v,
            None => {
                proof {
                    overflow_union(vld, dwi, da as int);
                }
                return Err(LayoutError::SizeOverflow);
            },
        };
        let aln = max_u64(da, pa);
        let size = match align_up_u64(end, aln) {
            Some(v) => v,
            None => {
                return Err(LayoutError::SizeOverflow);
            },
        };
        let out = build_variant_table(variants, &vls, po, Ghost(vld));
        let lr = LayoutResult {
            size,
            alignment: aln,
            members: out,
            representation: policy,
            discriminant: Some(DiscriminantLayout { offset: 0, width: dw }),
            uninhabited: unin,
            has_niche: false,
        };
        proof {
            assert(lr@.members =~= union_members(vseq, vld, po as int));
            assert(lr@ =~= layout_of(types, id as int, policy, profile)->Ok_0);
        }
        Ok(lr)
    }
}

/// Builds the per-variant table: each variant's payload region starts at
/// `po` and takes its payload's size and alignment (0 and 1 when empty).
fn build_variant_table(
    variants: &Vec<Variant>,
    vls: &Vec<Option<LayoutResult>>,
    po: u64,
    Ghost(vld): Ghost<Seq<Option<LayoutData>>>,
) -> (out: Vec<MemberLayout>)
    requires
        variants@.len() == vls@.len(),
        vld == opt_datas_of(vls@),
    ensures
        out@.len() == vld.len(),
        forall|j: int|
            0 <= j < vld.len() ==> #[trigger] out@[j]@ == union_members(variants@, vld, po as int)[j],
{
    let n = variants.len();
    let mut out: Vec<MemberLayout> = Vec::new();
    let mut k: usize = 0;
    while k < n
        invariant
            k <= n,
            n == variants@.len(),
            n == vls@.len(),
            vld == opt_datas_of(vls@),
            out@.len() == k,
            forall|j: int|
                0 <= j < k ==> #[trigger] out@[j]@ == union_members(variants@, vld, po as int)[j],
        decreases n - k,
    {
        let (s, a) = match &vls[k] {
            Some(l) => (l.size, l.alignment),
            None => (0, 1),
        };
        out.push(MemberLayout { name: variants[k].name.clone(), offset: po, size: s, alignment: a });
        k += 1;
    }
    out
}

/// Validates the reference discipline of a descriptor about to take slot
/// `id`.
#[verifier::loop_isolation(false)]
fn refs_ok(desc: &TypeDescriptor, id: usize) -> (b: bool)
    ensures
        b == descriptor_refs_ok(*desc, id as int),
{
    match desc {
        TypeDescriptor::Composite { members } => {
            let mut k: usize = 0;
            while k < members.len()
                invariant
                    k <= members@.len(),
                    forall|j: int| 0 <= j < k ==> (#[trigger] members@[j]).ty <= id,
                decreases members@.len() - k,
            {
                if members[k].ty > id {
                    proof {
                        assert((members@[k as int]).ty > id);
                    }
                    return false;
                }
                k += 1;
            }
            true
        },
        TypeDescriptor::FixedArray { element, .. } => *element <= id,
        TypeDescriptor::TaggedUnion { variants, .. } => {
            let mut k: usize = 0;
            while k < variants.len()
                invariant
                    k <= variants@.len(),
                    forall|j: int|
                        0 <= j < k ==> match (#[trigger] variants@[j]).payload {
                            Some(p) => p <= id,
                            None => true,
                        },
                decreases variants@.len() - k,
            {
                match variants[k].payload {
                    Some(p) => {
                        if p > id {
                            proof {
                                assert((variants@[k as int]).payload matches Some(q) && q > id);
                            }
                            return false;
                        }
                    },
                    None => {},
                }
                k += 1;
            }
            true
        },
        TypeDescriptor::GenericTail { head_members, tail } => {
            if *tail > id {
                return false;
            }
            let mut k: usize = 0;
            while k < head_members.len()
                invariant
                    k <= head_members@.len(),
                    forall|j: int| 0 <= j < k ==> (#[trigger] head_members@[j]).ty <= id,
                decreases head_members@.len() - k,
            {
                if head_members[k].ty > id {
                    proof {
                        assert((head_members@[k as int]).ty > id);
                    }
                    return false;
                }
                k += 1;
            }
            true
        },
        _ => true,
    }
}

/// Computes the narrowest discriminant byte width for `n` variants.
fn discriminant_bytes_u64(n: u64) -> (r: u64)
    ensures
        r as int == discriminant_bytes(n as int),
        1 <= r <= 8,
    decreases n,
{
    proof {
        lemma_discriminant_bytes_le8(n as int);
        crate::model::lemma_discriminant_bytes_ge1(n as int);
    }
    if n <= 256 {
        1
    } else {
        let m = (n - 1) / 256 + 1;
        proof {
            vstd::arithmetic::div_mod::lemma_div_plus_one(n as int - 1, 256);
            assert(m as int == (n as int + 255) / 256);
            vstd::arithmetic::div_mod::lemma_div_is_strictly_smaller(n as int - 1, 256);
        }
        1 + discriminant_bytes_u64(m)
    }
}

/// On a fixed-policy overflow at member `k`, the model's total size cannot
/// fit either.
proof fn overflow_fixed(mld: Seq<LayoutData>, k: int, aln: int)
    requires
        datas_wf(mld),
        0 <= k < mld.len(),
        aln == max_align(mld),
        crate::align::align_up(fixed_end(mld.take(k)), mld[k].alignment) + mld[k].size
            > u64::MAX,
    ensures
        !fits(crate::align::align_up(fixed_end(mld), aln)),
{
    lemma_max_align_bounds(mld);
    assert(mld.take(k + 1).drop_last() =~= mld.take(k));
    assert(mld.take(k + 1).last() == mld[k]);
    lemma_fixed_end_mono(mld, k + 1, mld.len() as int);
    assert(mld.take(mld.len() as int) =~= mld);
    crate::align::lemma_align_up_props(fixed_end(mld), aln);
}

/// On an explicit-discriminant overflow, the model's union size cannot fit
/// either.
proof fn overflow_union(vld: Seq<Option<LayoutData>>, dw: int, da: int)
    requires
        opt_datas_wf(vld),
        dw >= 1,
        da >= 1,
        crate::align::align_up(dw, max_payload_align(vld)) + max_payload_size(vld) > u64::MAX,
    ensures
        !fits(
            crate::align::align_up(
                crate::align::align_up(dw, max_payload_align(vld)) + max_payload_size(vld),
                crate::align::max_int(da, max_payload_align(vld)),
            ),
        ),
{
    lemma_payload_maxes(vld);
    crate::align::lemma_align_up_props(dw, max_payload_align(vld));
    crate::align::lemma_align_up_props(
        crate::align::align_up(dw, max_payload_align(vld)) + max_payload_size(vld),
        crate::align::max_int(da, max_payload_align(vld)),
    );
}

/// Pushing a well-formed entry keeps a payload batch well formed.
proof fn opt_wf_push(s: Seq<Option<LayoutResult>>, x: Option<LayoutResult>)
    requires
        opt_datas_wf(opt_datas_of(s)),
        match x {
            Some(l) => data_wf(l@),
            None => true,
        },
    ensures
        opt_datas_wf(opt_datas_of(s.push(x))),
{
    let nd = opt_datas_of(s.push(x));
    assert forall|j: int| 0 <= j < nd.len() implies match #[trigger] nd[j] {
        Some(l) => data_wf(l),
        None => true,
    } by {
        if j < s.len() {
            assert(nd[j] == opt_datas_of(s)[j]);
        } else {
            assert(s.push(x)[j] == x);
        }
    }
}

} // verus!

verus! {

/// Empty types: a type that cannot be instantiated still has a layout. The
/// engine lays out the uninhabited type as zero bytes at unit alignment and
/// marks it as having no values, so an interface can declare an alternative
/// that provably never occurs — a fallible computation whose error type is
/// uninhabited can only ever take its success path.
pub fn et() {
    let profile = TargetProfile {
        pointer_width: 8,
        scalar_alignments: Vec::new(),
        default_discriminant_width: 4,
    };
    proof {
        reveal_with_fuel(crate::align::is_pow2, 5);
        assert(profile_wf(profile));
    }
    let mut engine = LayoutEngine::new(profile);
    match engine.add_type(TypeDescriptor::Uninhabited) {
        Some(id) => {
            match engine.layout(id, LayoutPolicy::Fixed) {
                Ok(l) => {
                    assert(l.uninhabited);
                    assert(l.size == 0);
                },
                Err(_) => {
                    proof {
                        assert(false);
                    }
                },
            }
        },
        None => {
            proof {
                assert(false);
            }
        },
    }
}

} // verus!
