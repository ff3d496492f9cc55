//! Type descriptors: the abstract description of a type whose physical
//! layout the engine computes.
//!
//! Descriptors live in a registry owned by the engine and refer to one
//! another by index. A descriptor may refer only to types registered before
//! it, or to itself; a self-reference without pointer indirection is exactly
//! a cyclic (unbounded) type, which a layout query rejects. Pointer targets
//! are exempt from this discipline, because a pointer's layout never depends
//! on its target: that is what lets a recursive type tie its knot through a
//! pointer.

use vstd::prelude::*;

verus! {

/// What a pointer carries besides nothing: a bare address (thin), an address
/// plus an element count (a pointer to a bounded sequence), or an address
/// plus a dispatch-table address (a pointer to a polymorphic value).
#[derive(Clone, Copy, Debug, PartialEq, Eq, Structural)]
pub enum PointerKind {
    Thin,
    Sequence,
    Polymorphic,
}

/// How a tagged union's active variant is encoded.
#[derive(Clone, Copy, Debug)]
pub enum TagEncoding {
    /// Use niche encoding when the union's shape and payload allow it,
    /// otherwise fall back to an explicit discriminant.
    Auto,
    /// Demand niche encoding; the layout query fails with
    /// `NicheExhausted` when the union has no usable niche.
    Niche,
    /// Demand an explicit discriminant of the given width in bytes, or of
    /// the profile's default width when `None`. A width too narrow for the
    /// variant count is widened to the narrowest sufficient width.
    Explicit { width: Option<u64> },
}

/// A named member of a composite.
#[derive(Clone, Debug)]
pub struct Member {
    pub name: String,
    /// Index of the member's type in the engine's registry.
    pub ty: usize,
}

/// A named variant of a tagged union, with an optional payload type.
#[derive(Clone, Debug)]
pub struct Variant {
    pub name: String,
    /// Index of the payload type in the engine's registry, or `None` for an
    /// empty variant.
    pub payload: Option<usize>,
}

/// The closed set of type shapes the engine lays out.
#[derive(Clone, Debug)]
pub enum TypeDescriptor {
    /// A fixed-width primitive; its alignment comes from the profile's
    /// scalar alignment table.
    Scalar { width: u64 },
    /// A pointer to `target`. Its layout depends only on `kind` and the
    /// profile's pointer width, never on the target, so `target` may refer
    /// to a type registered later.
    Pointer { target: usize, kind: PointerKind },
    /// A named aggregate; member order is declaration order, and is
    /// physically meaningful only under the fixed policy.
    Composite { members: Vec<Member> },
    /// A homogeneous, contiguous array: always densely packed.
    FixedArray { element: usize, count: u64 },
    /// Exactly one variant is active per value.
    TaggedUnion { variants: Vec<Variant>, encoding: TagEncoding },
    /// A composite whose trailing member is a yet-unsubstituted, possibly
    /// dynamically sized type: the whole type has no standalone size until
    /// the tail is instantiated with a sized type.
    GenericTail { head_members: Vec<Member>, tail: usize },
    /// A type with no values at all.
    Uninhabited,
    /// A type with exactly one value and no storage.
    ZeroSized,
}

/// The registry discipline: every index a descriptor stores — except a
/// pointer target — refers to a type registered no later than `id`, the
/// descriptor's own slot.
pub open spec fn descriptor_refs_ok(d: TypeDescriptor, id: int) -> bool {
    match d {
        TypeDescriptor::Scalar { .. } => true,
        TypeDescriptor::Pointer { .. } => true,
        TypeDescriptor::Composite { members } => forall|k: int|
            0 <= k < members@.len() ==> (#[trigger] members@[k]).ty <= id,
        TypeDescriptor::FixedArray { element, .. } => element <= id,
        TypeDescriptor::TaggedUnion { variants, .. } => forall|k: int|
            0 <= k < variants@.len() ==> match (#[trigger] variants@[k]).payload {
                Some(p) => p <= id,
                None => true,
            },
        TypeDescriptor::GenericTail { head_members, tail } => tail <= id && forall|k: int|
            0 <= k < head_members@.len() ==> (#[trigger] head_members@[k]).ty <= id,
        TypeDescriptor::Uninhabited => true,
        TypeDescriptor::ZeroSized => true,
    }
}

/// A whole registry obeys the reference discipline.
pub open spec fn registry_wf(types: Seq<TypeDescriptor>) -> bool {
    forall|i: int| 0 <= i < types.len() ==> descriptor_refs_ok(#[trigger] types[i], i)
}

} // verus!
