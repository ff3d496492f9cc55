use layout_engine::descriptor::{Member, PointerKind, TagEncoding, TypeDescriptor, Variant};
use layout_engine::engine::{et, LayoutEngine};
use layout_engine::profile::TargetProfile;
use layout_engine::result::LayoutPolicy;

fn profile() -> TargetProfile {
    TargetProfile::new(8, vec![(1, 1), (2, 2), (4, 4), (8, 8)], 4).unwrap()
}

fn engine() -> LayoutEngine {
    LayoutEngine::new(profile())
}

fn member(name: &str, ty: usize) -> Member {
    Member { name: name.to_string(), ty }
}

fn variant(name: &str, payload: Option<usize>) -> Variant {
    Variant { name: name.to_string(), payload }
}

#[test]
fn fixed_composite_scenario() {
    let mut e = engine();
    let b1 = e.add_type(TypeDescriptor::Scalar { width: 1 }).unwrap();
    let b4 = e.add_type(TypeDescriptor::Scalar { width: 4 }).unwrap();
    let b2 = e.add_type(TypeDescriptor::Scalar { width: 2 }).unwrap();
    let c = e
        .add_type(TypeDescriptor::Composite {
            members: vec![member("a", b1), member("b", b4), member("c", b2)],
        })
        .unwrap();
    let l = e.layout(c, LayoutPolicy::Fixed).unwrap();
    assert_eq!(l.size, 12);
    assert_eq!(l.alignment, 4);
    assert_eq!(l.members.len(), 3);
    assert_eq!(l.members[0].name, "a");
    assert_eq!(l.members[0].offset, 0);
    assert_eq!(l.members[1].name, "b");
    assert_eq!(l.members[1].offset, 4);
    assert_eq!(l.members[2].name, "c");
    assert_eq!(l.members[2].offset, 8);
    assert!(l.discriminant.is_none());
    assert!(!l.uninhabited);
}

#[test]
fn optimized_composite_scenario() {
    let mut e = engine();
    let b1 = e.add_type(TypeDescriptor::Scalar { width: 1 }).unwrap();
    let b4 = e.add_type(TypeDescriptor::Scalar { width: 4 }).unwrap();
    let b2 = e.add_type(TypeDescriptor::Scalar { width: 2 }).unwrap();
    let c = e
        .add_type(TypeDescriptor::Composite {
            members: vec![member("a", b1), member("b", b4), member("c", b2)],
        })
        .unwrap();
    let l = e.layout(c, LayoutPolicy::Optimized).unwrap();
    assert_eq!(l.size, 8);
    assert_eq!(l.alignment, 4);
    // The member table stays in declaration order even though the physical
    // order puts the widest alignment first.
    assert_eq!(l.members[0].name, "a");
    assert_eq!(l.members[0].offset, 6);
    assert_eq!(l.members[1].name, "b");
    assert_eq!(l.members[1].offset, 0);
    assert_eq!(l.members[2].name, "c");
    assert_eq!(l.members[2].offset, 4);
}

#[test]
fn optimized_never_larger_examples() {
    let cases: Vec<Vec<u64>> = vec![
        vec![1, 4, 2],
        vec![1, 1, 8, 2, 4],
        vec![2, 1, 2, 1],
        vec![8, 4, 2, 1],
        vec![1],
        vec![],
    ];
    for widths in cases {
        let mut e = engine();
        let mut members = Vec::new();
        for (i, w) in widths.iter().enumerate() {
            let id = e.add_type(TypeDescriptor::Scalar { width: *w }).unwrap();
            members.push(member(&format!("m{}", i), id));
        }
        let c = e.add_type(TypeDescriptor::Composite { members }).unwrap();
        let opt = e.layout(c, LayoutPolicy::Optimized).unwrap();
        let fix = e.layout(c, LayoutPolicy::Fixed).unwrap();
        assert!(opt.size <= fix.size);
        assert_eq!(opt.alignment, fix.alignment);
    }
}

#[test]
fn zero_sized_type() {
    let mut e = engine();
    let z = e.add_type(TypeDescriptor::ZeroSized).unwrap();
    let l = e.layout(z, LayoutPolicy::Fixed).unwrap();
    assert_eq!(l.size, 0);
    assert_eq!(l.alignment, 1);
    assert!(!l.uninhabited);
}

#[test]
fn zero_sized_array_scenario() {
    let mut e = engine();
    let z = e.add_type(TypeDescriptor::ZeroSized).unwrap();
    let a = e
        .add_type(TypeDescriptor::FixedArray { element: z, count: 1000 })
        .unwrap();
    let l = e.layout(a, LayoutPolicy::Fixed).unwrap();
    assert_eq!(l.size, 0);
    assert_eq!(l.alignment, 1);
}

#[test]
fn fixed_array_is_densely_packed() {
    let mut e = engine();
    let b4 = e.add_type(TypeDescriptor::Scalar { width: 4 }).unwrap();
    let a = e
        .add_type(TypeDescriptor::FixedArray { element: b4, count: 10 })
        .unwrap();
    let l = e.layout(a, LayoutPolicy::Fixed).unwrap();
    assert_eq!(l.size, 40);
    assert_eq!(l.alignment, 4);
}

#[test]
fn thin_and_fat_pointers() {
    let mut e = engine();
    let b1 = e.add_type(TypeDescriptor::Scalar { width: 1 }).unwrap();
    let thin = e
        .add_type(TypeDescriptor::Pointer { target: b1, kind: PointerKind::Thin })
        .unwrap();
    let seq = e
        .add_type(TypeDescriptor::Pointer { target: b1, kind: PointerKind::Sequence })
        .unwrap();
    let poly = e
        .add_type(TypeDescriptor::Pointer { target: b1, kind: PointerKind::Polymorphic })
        .unwrap();
    let lt = e.layout(thin, LayoutPolicy::Fixed).unwrap();
    assert_eq!(lt.size, 8);
    assert_eq!(lt.alignment, 8);
    assert!(lt.has_niche);
    let ls = e.layout(seq, LayoutPolicy::Fixed).unwrap();
    assert_eq!(ls.size, 16);
    assert_eq!(ls.alignment, 8);
    let lp = e.layout(poly, LayoutPolicy::Fixed).unwrap();
    assert_eq!(lp.size, 16);
    assert_eq!(lp.alignment, 8);
}

#[test]
fn niche_union_scenario() {
    // A tagged union of one empty variant and one non-null pointer payload:
    // the pointer's forbidden all-zero pattern encodes the empty variant, so
    // the union is exactly one pointer wide and stores no discriminant.
    let mut e = engine();
    let b1 = e.add_type(TypeDescriptor::Scalar { width: 1 }).unwrap();
    let p = e
        .add_type(TypeDescriptor::Pointer { target: b1, kind: PointerKind::Thin })
        .unwrap();
    let u = e
        .add_type(TypeDescriptor::TaggedUnion {
            variants: vec![variant("empty", None), variant("payload", Some(p))],
            encoding: TagEncoding::Auto,
        })
        .unwrap();
    let l = e.layout(u, LayoutPolicy::Fixed).unwrap();
    assert_eq!(l.size, 8);
    assert_eq!(l.alignment, 8);
    assert!(l.discriminant.is_none());
}

#[test]
fn niche_found_in_nested_member() {
    // The niche analysis applies recursively: a pointer nested inside a
    // composite payload still lends its niche to the enclosing union.
    let mut e = engine();
    let b4 = e.add_type(TypeDescriptor::Scalar { width: 4 }).unwrap();
    let p = e
        .add_type(TypeDescriptor::Pointer { target: b4, kind: PointerKind::Thin })
        .unwrap();
    let c = e
        .add_type(TypeDescriptor::Composite {
            members: vec![member("len", b4), member("ptr", p)],
        })
        .unwrap();
    let u = e
        .add_type(TypeDescriptor::TaggedUnion {
            variants: vec![variant("none", None), variant("some", Some(c))],
            encoding: TagEncoding::Auto,
        })
        .unwrap();
    let inner = e.layout(c, LayoutPolicy::Fixed).unwrap();
    let l = e.layout(u, LayoutPolicy::Fixed).unwrap();
    assert_eq!(l.size, inner.size);
    assert_eq!(l.alignment, inner.alignment);
    assert!(l.discriminant.is_none());
}

#[test]
fn explicit_discriminant_union() {
    // Two payload variants leave no niche shape, so an explicit discriminant
    // of the profile's default width is laid out before the payload region:
    // align_up(4 + 4, 4) = 8 bytes in all.
    let mut e = engine();
    let b4 = e.add_type(TypeDescriptor::Scalar { width: 4 }).unwrap();
    let b1 = e.add_type(TypeDescriptor::Scalar { width: 1 }).unwrap();
    let u = e
        .add_type(TypeDescriptor::TaggedUnion {
            variants: vec![variant("a", Some(b4)), variant("b", Some(b1)), variant("c", None)],
            encoding: TagEncoding::Auto,
        })
        .unwrap();
    let l = e.layout(u, LayoutPolicy::Fixed).unwrap();
    assert_eq!(l.size, 8);
    assert_eq!(l.alignment, 4);
    let d = l.discriminant.unwrap();
    assert_eq!(d.offset, 0);
    assert_eq!(d.width, 4);
    // Every payload region starts after the (aligned) discriminant.
    for m in &l.members {
        assert_eq!(m.offset, 4);
    }
}

#[test]
fn requested_narrow_discriminant() {
    // A narrower discriminant than the default may be requested explicitly.
    let mut e = engine();
    let b4 = e.add_type(TypeDescriptor::Scalar { width: 4 }).unwrap();
    let u = e
        .add_type(TypeDescriptor::TaggedUnion {
            variants: vec![variant("a", Some(b4)), variant("b", Some(b4))],
            encoding: TagEncoding::Explicit { width: Some(1) },
        })
        .unwrap();
    let l = e.layout(u, LayoutPolicy::Fixed).unwrap();
    let d = l.discriminant.unwrap();
    assert_eq!(d.width, 1);
    assert_eq!(l.size, 8);
    assert_eq!(l.alignment, 4);
}

#[test]
fn discriminant_widens_for_many_variants() {
    // 300 variants cannot be told apart by one byte: the requested width is
    // widened to two.
    let mut e = engine();
    let mut variants = Vec::new();
    for i in 0..300 {
        variants.push(variant(&format!("v{}", i), None));
    }
    let u = e
        .add_type(TypeDescriptor::TaggedUnion {
            variants,
            encoding: TagEncoding::Explicit { width: Some(1) },
        })
        .unwrap();
    let l = e.layout(u, LayoutPolicy::Fixed).unwrap();
    assert_eq!(l.discriminant.unwrap().width, 2);
    assert_eq!(l.size, 2);
}

#[test]
fn empty_union_is_uninhabited() {
    let mut e = engine();
    let u = e
        .add_type(TypeDescriptor::TaggedUnion {
            variants: vec![],
            encoding: TagEncoding::Auto,
        })
        .unwrap();
    let l = e.layout(u, LayoutPolicy::Fixed).unwrap();
    assert_eq!(l.size, 0);
    assert_eq!(l.alignment, 1);
    assert!(l.uninhabited);
    assert!(l.discriminant.is_none());
}

#[test]
fn uninhabited_member_marks_composite() {
    // A composite holding an uninhabited member is itself uninhabited, yet
    // it keeps the nominal size and alignment derived from its structure.
    let mut e = engine();
    let b2 = e.add_type(TypeDescriptor::Scalar { width: 2 }).unwrap();
    let v = e.add_type(TypeDescriptor::Uninhabited).unwrap();
    let c = e
        .add_type(TypeDescriptor::Composite {
            members: vec![member("tag", b2), member("never", v)],
        })
        .unwrap();
    let l = e.layout(c, LayoutPolicy::Fixed).unwrap();
    assert!(l.uninhabited);
    assert_eq!(l.size, 2);
    assert_eq!(l.alignment, 2);
}

#[test]
fn instantiated_generic_tail_lays_out() {
    let mut e = engine();
    let b4 = e.add_type(TypeDescriptor::Scalar { width: 4 }).unwrap();
    let b1 = e.add_type(TypeDescriptor::Scalar { width: 1 }).unwrap();
    let arr = e
        .add_type(TypeDescriptor::FixedArray { element: b1, count: 8 })
        .unwrap();
    let gt = e
        .add_type(TypeDescriptor::GenericTail {
            head_members: vec![member("info", b4)],
            tail: arr,
        })
        .unwrap();
    let inst = e.instantiate(gt, arr, "data".to_string()).unwrap();
    let l = e.layout(inst, LayoutPolicy::Fixed).unwrap();
    assert_eq!(l.size, 12);
    assert_eq!(l.alignment, 4);
    assert_eq!(l.members[0].name, "info");
    assert_eq!(l.members[0].offset, 0);
    assert_eq!(l.members[1].name, "data");
    assert_eq!(l.members[1].offset, 4);
}

#[test]
fn cache_serves_repeated_queries() {
    let mut e = engine();
    let b4 = e.add_type(TypeDescriptor::Scalar { width: 4 }).unwrap();
    let c = e
        .add_type(TypeDescriptor::Composite { members: vec![member("x", b4)] })
        .unwrap();
    let first = e.layout(c, LayoutPolicy::Fixed).unwrap();
    // Registering more types must not disturb cached results.
    let _ = e.add_type(TypeDescriptor::ZeroSized).unwrap();
    let second = e.layout(c, LayoutPolicy::Fixed).unwrap();
    assert_eq!(first.size, second.size);
    assert_eq!(first.alignment, second.alignment);
    assert_eq!(first.members.len(), second.members.len());
    assert_eq!(first.members[0].offset, second.members[0].offset);
}

#[test]
fn et_demonstrates_empty_types() {
    et();
}

#[test]
fn empty_composite() {
    let mut e = engine();
    let c = e.add_type(TypeDescriptor::Composite { members: vec![] }).unwrap();
    let f = e.layout(c, LayoutPolicy::Fixed).unwrap();
    assert_eq!(f.size, 0);
    assert_eq!(f.alignment, 1);
    let o = e.layout(c, LayoutPolicy::Optimized).unwrap();
    assert_eq!(o.size, 0);
    assert_eq!(o.alignment, 1);
}

#[test]
fn optimized_ties_keep_declaration_order() {
    // Members of equal alignment stay in declaration order, so the result is
    // reproducible.
    let mut e = engine();
    let b2 = e.add_type(TypeDescriptor::Scalar { width: 2 }).unwrap();
    let c = e
        .add_type(TypeDescriptor::Composite {
            members: vec![member("x", b2), member("y", b2), member("z", b2)],
        })
        .unwrap();
    let l = e.layout(c, LayoutPolicy::Optimized).unwrap();
    assert_eq!(l.members[0].offset, 0);
    assert_eq!(l.members[1].offset, 2);
    assert_eq!(l.members[2].offset, 4);
    assert_eq!(l.size, 6);
}

#[test]
fn uninhabited_array_and_union() {
    let mut e = engine();
    let v = e.add_type(TypeDescriptor::Uninhabited).unwrap();
    let b4 = e.add_type(TypeDescriptor::Scalar { width: 4 }).unwrap();
    // An array of an uninhabited element is uninhabited unless empty.
    let a = e.add_type(TypeDescriptor::FixedArray { element: v, count: 3 }).unwrap();
    assert!(e.layout(a, LayoutPolicy::Fixed).unwrap().uninhabited);
    let a0 = e.add_type(TypeDescriptor::FixedArray { element: v, count: 0 }).unwrap();
    assert!(!e.layout(a0, LayoutPolicy::Fixed).unwrap().uninhabited);
    // A union is uninhabited only when every variant is: one empty variant
    // keeps it inhabited, one inhabited payload does too.
    let u = e
        .add_type(TypeDescriptor::TaggedUnion {
            variants: vec![variant("ok", Some(b4)), variant("never", Some(v))],
            encoding: TagEncoding::Auto,
        })
        .unwrap();
    assert!(!e.layout(u, LayoutPolicy::Fixed).unwrap().uninhabited);
    let u2 = e
        .add_type(TypeDescriptor::TaggedUnion {
            variants: vec![variant("never", Some(v))],
            encoding: TagEncoding::Auto,
        })
        .unwrap();
    assert!(e.layout(u2, LayoutPolicy::Fixed).unwrap().uninhabited);
}
