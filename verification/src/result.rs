//! Layout results and layout errors, together with their mathematical
//! views: every executable result is mirrored by a ghost value over
//! unbounded integers and sequences, and the engine's contracts speak of
//! those views.

use vstd::prelude::*;

verus! {

/// The layout policy a query runs under.
#[derive(Clone, Copy, Debug, PartialEq, Eq, Structural)]
pub enum LayoutPolicy {
    /// Members may be reordered to minimize total size.
    Optimized,
    /// Declaration order is preserved byte-for-byte, as a platform's native
    /// binary interface demands.
    Fixed,
}

/// Why a layout query failed. Every error is terminal for the query that
/// raised it and leaves the engine's cache untouched.
#[derive(Clone, Copy, Debug, PartialEq, Eq, Structural)]
pub enum LayoutError {
    /// The descriptor graph has unbounded size: a type contains itself with
    /// no pointer indirection in between.
    CyclicLayout,
    /// A dynamically sized type was asked for a standalone size, or stands
    /// where only a sized type may stand.
    InvalidDstPlacement,
    /// A tagged-union value was given a discriminant that matches no
    /// declared variant.
    UndefinedDiscriminant,
    /// Niche encoding was demanded, but the union's shape or its payload
    /// offers no free bit pattern.
    NicheExhausted,
    /// The profile's alignment table has no entry for a requested scalar
    /// width.
    UnsupportedProfile,
    /// The type is representable only with a size beyond the 64-bit range.
    SizeOverflow,
}

/// Where one member of a composite — or one variant's payload region of a
/// tagged union — is placed.
#[derive(Clone, Debug, PartialEq)]
pub struct MemberLayout {
    pub name: String,
    /// Byte offset from the start of the enclosing type.
    pub offset: u64,
    /// Byte size of the member's own layout.
    pub size: u64,
    /// Alignment of the member's own layout.
    pub alignment: u64,
}

/// An explicit discriminant field of a tagged union.
#[derive(Clone, Copy, Debug, PartialEq, Eq, Structural)]
pub struct DiscriminantLayout {
    pub offset: u64,
    pub width: u64,
}

/// The physical representation of one type under one policy.
#[derive(Clone, Debug, PartialEq)]
pub struct LayoutResult {
    /// Total size in bytes; always a multiple of `alignment`.
    pub size: u64,
    /// Alignment in bytes; always a power of two.
    pub alignment: u64,
    /// For composites: one entry per member, in declaration order, whatever
    /// the policy. For tagged unions: one entry per variant, giving where
    /// its payload region lies. Empty for other types.
    pub members: Vec<MemberLayout>,
    /// The policy this layout was computed under.
    pub representation: LayoutPolicy,
    /// The explicit discriminant field, for a tagged union that has one;
    /// `None` for niche-encoded unions and for every other type.
    pub discriminant: Option<DiscriminantLayout>,
    /// Whether the type has no values at all. An uninhabited type still has
    /// the nominal size and alignment derived from its structure.
    pub uninhabited: bool,
    /// Whether the representation provably has a bit pattern that no value
    /// of the type occupies, so an enclosing tagged union can encode an
    /// empty variant in it.
    pub has_niche: bool,
}

/// Ghost view of `MemberLayout`.
#[verifier::ext_equal]
pub ghost struct MemberData {
    pub name: Seq<char>,
    pub offset: int,
    pub size: int,
    pub alignment: int,
}

/// Ghost view of `DiscriminantLayout`.
#[verifier::ext_equal]
pub ghost struct DiscriminantData {
    pub offset: int,
    pub width: int,
}

/// Ghost view of `LayoutResult`.
#[verifier::ext_equal]
pub ghost struct LayoutData {
    pub size: int,
    pub alignment: int,
    pub members: Seq<MemberData>,
    pub representation: LayoutPolicy,
    pub discriminant: Option<DiscriminantData>,
    pub uninhabited: bool,
    pub has_niche: bool,
}

impl View for MemberLayout {
    type V = MemberData;

    open spec fn view(&self) -> MemberData {
        MemberData {
            name: self.name@,
            offset: self.offset as int,
            size: self.size as int,
            alignment: self.alignment as int,
        }
    }
}

impl View for DiscriminantLayout {
    type V = DiscriminantData;

    open spec fn view(&self) -> DiscriminantData {
        DiscriminantData { offset: self.offset as int, width: self.width as int }
    }
}

impl View for LayoutResult {
    type V = LayoutData;

    open spec fn view(&self) -> LayoutData {
        LayoutData {
            size: self.size as int,
            alignment: self.alignment as int,
            members: Seq::new(self.members@.len(), |k: int| self.members@[k]@),
            representation: self.representation,
            discriminant: match self.discriminant {
                Some(d) => Some(d@),
                None => None,
            },
            uninhabited: self.uninhabited,
            has_niche: self.has_niche,
        }
    }
}

impl LayoutResult {
    /// A copy of this layout, equal to it in every reported field.
    pub fn duplicate(&self) -> (r: LayoutResult)
        ensures
            r@ == self@,
    {
        let mut ms: Vec<MemberLayout> = Vec::new();
        let mut k: usize = 0;
        while k < self.members.len()
            invariant
                k <= self.members@.len(),
                ms@.len() == k,
                forall|j: int| 0 <= j < k ==> #[trigger] ms@[j]@ == self.members@[j]@,
            decreases self.members@.len() - k,
        {
            let m = &self.members[k];
            ms.push(
                MemberLayout {
                    name: m.name.clone(),
                    offset: m.offset,
                    size: m.size,
                    alignment: m.alignment,
                },
            );
            k += 1;
        }
        let r = LayoutResult {
            size: self.size,
            alignment: self.alignment,
            members: ms,
            representation: self.representation,
            discriminant: self.discriminant,
            uninhabited: self.uninhabited,
            has_niche: self.has_niche,
        };
        proof {
            assert(r@ =~= self@);
        }
        r
    }
}

/// The view of an executable query result, compared against the model.
pub open spec fn result_view(r: Result<LayoutResult, LayoutError>) -> Result<
    LayoutData,
    LayoutError,
> {
    match r {
        Ok(l) => Ok(l@),
        Err(e) => Err(e),
    }
}

} // verus!
