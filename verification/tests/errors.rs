use layout_engine::descriptor::{Member, PointerKind, TagEncoding, TypeDescriptor, Variant};
use layout_engine::engine::LayoutEngine;
use layout_engine::profile::TargetProfile;
use layout_engine::result::{LayoutError, LayoutPolicy};

fn profile() -> TargetProfile {
    TargetProfile::new(8, vec![(1, 1), (2, 2), (4, 4), (8, 8)], 4).unwrap()
}

fn engine() -> LayoutEngine {
    LayoutEngine::new(profile())
}

fn member(name: &str, ty: usize) -> Member {
    Member { name: name.to_string(), ty }
}

fn variant(name: &str, payload: Option<usize>) -> Variant {
    Variant { name: name.to_string(), payload }
}

#[test]
fn cyclic_composite_rejected() {
    // A type whose member is the type itself, with no pointer in between,
    // would have unbounded size.
    let mut e = engine();
    let c = e
        .add_type(TypeDescriptor::Composite { members: vec![member("next", 0)] })
        .unwrap();
    assert_eq!(c, 0);
    assert_eq!(e.layout(c, LayoutPolicy::Fixed), Err(LayoutError::CyclicLayout));
    assert_eq!(e.layout(c, LayoutPolicy::Optimized), Err(LayoutError::CyclicLayout));
}

#[test]
fn cycle_through_pointer_is_fine() {
    // The same knot tied through a pointer is finite: the pointer's layout
    // never looks at its target.
    let mut e = engine();
    let b4 = e.add_type(TypeDescriptor::Scalar { width: 4 }).unwrap();
    let p = e
        .add_type(TypeDescriptor::Pointer { target: 2, kind: PointerKind::Thin })
        .unwrap();
    let node = e
        .add_type(TypeDescriptor::Composite {
            members: vec![member("value", b4), member("next", p)],
        })
        .unwrap();
    assert_eq!(node, 2);
    let l = e.layout(node, LayoutPolicy::Fixed).unwrap();
    assert_eq!(l.size, 16);
    assert_eq!(l.alignment, 8);
}

#[test]
fn generic_tail_standalone_size_rejected() {
    let mut e = engine();
    let b4 = e.add_type(TypeDescriptor::Scalar { width: 4 }).unwrap();
    let gt = e
        .add_type(TypeDescriptor::GenericTail {
            head_members: vec![member("info", b4)],
            tail: b4,
        })
        .unwrap();
    assert_eq!(e.layout(gt, LayoutPolicy::Fixed), Err(LayoutError::InvalidDstPlacement));
}

#[test]
fn generic_tail_inside_composite_rejected() {
    let mut e = engine();
    let b4 = e.add_type(TypeDescriptor::Scalar { width: 4 }).unwrap();
    let gt = e
        .add_type(TypeDescriptor::GenericTail { head_members: vec![], tail: b4 })
        .unwrap();
    let c = e
        .add_type(TypeDescriptor::Composite {
            members: vec![member("dst", gt), member("after", b4)],
        })
        .unwrap();
    assert_eq!(e.layout(c, LayoutPolicy::Fixed), Err(LayoutError::InvalidDstPlacement));
}

#[test]
fn instantiate_with_unsized_tail_rejected() {
    let mut e = engine();
    let b4 = e.add_type(TypeDescriptor::Scalar { width: 4 }).unwrap();
    let gt = e
        .add_type(TypeDescriptor::GenericTail {
            head_members: vec![member("info", b4)],
            tail: b4,
        })
        .unwrap();
    let gt2 = e
        .add_type(TypeDescriptor::GenericTail { head_members: vec![], tail: b4 })
        .unwrap();
    assert_eq!(
        e.instantiate(gt, gt2, "tail".to_string()),
        Err(LayoutError::InvalidDstPlacement)
    );
    // Instantiating something that is not a generic tail fails the same way.
    assert_eq!(
        e.instantiate(b4, b4, "tail".to_string()),
        Err(LayoutError::InvalidDstPlacement)
    );
}

#[test]
fn undefined_discriminant_rejected() {
    let mut e = engine();
    let b4 = e.add_type(TypeDescriptor::Scalar { width: 4 }).unwrap();
    let u = e
        .add_type(TypeDescriptor::TaggedUnion {
            variants: vec![variant("a", Some(b4)), variant("b", None)],
            encoding: TagEncoding::Auto,
        })
        .unwrap();
    assert!(e.check_discriminant(u, 0).is_ok());
    assert!(e.check_discriminant(u, 1).is_ok());
    assert_eq!(e.check_discriminant(u, 2), Err(LayoutError::UndefinedDiscriminant));
    assert_eq!(e.check_discriminant(b4, 0), Err(LayoutError::UndefinedDiscriminant));
}

#[test]
fn niche_exhausted_without_free_pattern() {
    // A scalar payload uses all its bit patterns, so demanding niche
    // encoding must fail.
    let mut e = engine();
    let b4 = e.add_type(TypeDescriptor::Scalar { width: 4 }).unwrap();
    let u = e
        .add_type(TypeDescriptor::TaggedUnion {
            variants: vec![variant("none", None), variant("some", Some(b4))],
            encoding: TagEncoding::Niche,
        })
        .unwrap();
    assert_eq!(e.layout(u, LayoutPolicy::Fixed), Err(LayoutError::NicheExhausted));
}

#[test]
fn niche_exhausted_with_two_payloads() {
    // Niche encoding also needs the right shape: exactly one payload variant.
    let mut e = engine();
    let b1 = e.add_type(TypeDescriptor::Scalar { width: 1 }).unwrap();
    let p = e
        .add_type(TypeDescriptor::Pointer { target: b1, kind: PointerKind::Thin })
        .unwrap();
    let u = e
        .add_type(TypeDescriptor::TaggedUnion {
            variants: vec![variant("a", Some(p)), variant("b", Some(p))],
            encoding: TagEncoding::Niche,
        })
        .unwrap();
    assert_eq!(e.layout(u, LayoutPolicy::Fixed), Err(LayoutError::NicheExhausted));
}

#[test]
fn unsupported_scalar_width() {
    let mut e = engine();
    let odd = e.add_type(TypeDescriptor::Scalar { width: 3 }).unwrap();
    assert_eq!(e.layout(odd, LayoutPolicy::Fixed), Err(LayoutError::UnsupportedProfile));
}

#[test]
fn oversized_array_overflows() {
    let mut e = engine();
    let b8 = e.add_type(TypeDescriptor::Scalar { width: 8 }).unwrap();
    let a = e
        .add_type(TypeDescriptor::FixedArray { element: b8, count: u64::MAX })
        .unwrap();
    assert_eq!(e.layout(a, LayoutPolicy::Fixed), Err(LayoutError::SizeOverflow));
    // A failed computation is not cached, and does not poison later queries.
    let l = e.layout(b8, LayoutPolicy::Fixed).unwrap();
    assert_eq!(l.size, 8);
}

#[test]
fn forward_reference_rejected_at_registration() {
    let mut e = engine();
    // Slot 0 would have to refer to slot 5, which does not exist yet.
    assert!(e
        .add_type(TypeDescriptor::Composite { members: vec![member("later", 5)] })
        .is_none());
    // Pointer targets are exempt: they may point anywhere.
    assert!(e
        .add_type(TypeDescriptor::Pointer { target: 5, kind: PointerKind::Thin })
        .is_some());
}

#[test]
fn profile_validation() {
    // A pointer width that is not a power of two is refused.
    assert!(TargetProfile::new(7, vec![(1, 1)], 4).is_none());
    // An alignment that does not divide its scalar's width is refused.
    assert!(TargetProfile::new(8, vec![(4, 3)], 4).is_none());
    // A zero discriminant width is refused.
    assert!(TargetProfile::new(8, vec![(1, 1)], 0).is_none());
    // A wide scalar may be aligned below its size, as some platforms do.
    let p = TargetProfile::new(4, vec![(8, 4)], 4).unwrap();
    let mut e = LayoutEngine::new(p);
    let b8 = e.add_type(TypeDescriptor::Scalar { width: 8 }).unwrap();
    let l = e.layout(b8, LayoutPolicy::Fixed).unwrap();
    assert_eq!(l.size, 8);
    assert_eq!(l.alignment, 4);
}
