use aggregate_layout::layout::{
    array_layout, compute_layout, element_offsets, enumeration_layout, is_power_of_two,
    layout_fits, memory_layout, pair_fields, record_fields, round_up_to, AggregateLayout,
    AggregateSpec, FieldSpec, InvalidReason, LayoutError, LayoutStrategy, TwoVariants,
};

fn spec_of(fields: &[(&str, u64, u64)]) -> AggregateSpec {
    AggregateSpec {
        fields: fields
            .iter()
            .map(|(n, s, a)| FieldSpec { name: n.to_string(), size: *s, align: *a })
            .collect(),
    }
}

fn record() -> AggregateSpec {
    spec_of(&[("f1", 1, 1), ("f2", 4, 4), ("f3", 1, 1), ("f4", 8, 8)])
}

fn placed(l: &AggregateLayout) -> Vec<(String, u64, u64)> {
    l.fields.iter().map(|f| (f.name.clone(), f.offset, f.size)).collect()
}

fn names_offsets(l: &AggregateLayout) -> Vec<(&str, u64)> {
    l.fields.iter().map(|f| (f.name.as_str(), f.offset)).collect()
}

#[test]
fn declared_record_example() {
    let l = compute_layout(&record(), LayoutStrategy::Declared).unwrap();
    assert_eq!(names_offsets(&l), vec![("f1", 0), ("f2", 4), ("f3", 8), ("f4", 16)]);
    assert_eq!(l.total_size, 24);
    assert_eq!(l.align, 8);
}

#[test]
fn optimized_record_example() {
    let l = compute_layout(&record(), LayoutStrategy::Optimized).unwrap();
    assert_eq!(names_offsets(&l), vec![("f4", 0), ("f2", 8), ("f1", 12), ("f3", 13)]);
    let sizes: Vec<u64> = l.fields.iter().map(|f| f.size).collect();
    assert_eq!(sizes, vec![8, 4, 1, 1]);
    assert_eq!(l.total_size, 16);
    assert_eq!(l.align, 8);
}

#[test]
fn packed_record_example() {
    let l = compute_layout(&record(), LayoutStrategy::Packed).unwrap();
    assert_eq!(names_offsets(&l), vec![("f1", 0), ("f2", 1), ("f3", 5), ("f4", 6)]);
    assert_eq!(l.total_size, 14);
    assert_eq!(l.align, 1);
}

#[test]
fn empty_fields_any_strategy() {
    for st in [LayoutStrategy::Declared, LayoutStrategy::Optimized, LayoutStrategy::Packed] {
        let l = compute_layout(&spec_of(&[]), st).unwrap();
        assert_eq!(l.total_size, 0);
        assert_eq!(l.align, 1);
        assert!(l.fields.is_empty());
    }
}

#[test]
fn zero_alignment_is_rejected() {
    for st in [LayoutStrategy::Declared, LayoutStrategy::Optimized, LayoutStrategy::Packed] {
        let r = compute_layout(&spec_of(&[("bad", 3, 0)]), st);
        assert_eq!(
            r,
            Err(LayoutError::InvalidFieldSpec {
                field_name: "bad".to_string(),
                reason: InvalidReason::AlignmentNotPowerOfTwo,
            })
        );
    }
}

#[test]
fn non_power_of_two_alignment_is_rejected() {
    let r = compute_layout(&spec_of(&[("a", 4, 4), ("odd", 6, 6)]), LayoutStrategy::Declared);
    assert_eq!(
        r,
        Err(LayoutError::InvalidFieldSpec {
            field_name: "odd".to_string(),
            reason: InvalidReason::AlignmentNotPowerOfTwo,
        })
    );
}

#[test]
fn zero_size_is_rejected() {
    let r = compute_layout(&spec_of(&[("ok", 1, 1), ("empty", 0, 4)]), LayoutStrategy::Packed);
    assert_eq!(
        r,
        Err(LayoutError::InvalidFieldSpec {
            field_name: "empty".to_string(),
            reason: InvalidReason::NonPositiveSize,
        })
    );
}

#[test]
fn first_invalid_field_is_reported() {
    let r = compute_layout(
        &spec_of(&[("ok", 2, 2), ("both", 0, 3), ("later", 0, 1)]),
        LayoutStrategy::Optimized,
    );
    assert_eq!(
        r,
        Err(LayoutError::InvalidFieldSpec {
            field_name: "both".to_string(),
            reason: InvalidReason::NonPositiveSize,
        })
    );
}

#[test]
fn declared_offsets_aligned_and_disjoint() {
    let s = spec_of(&[("a", 3, 1), ("b", 8, 8), ("c", 2, 2), ("d", 16, 16), ("e", 1, 1), ("f", 4, 4)]);
    let l = compute_layout(&s, LayoutStrategy::Declared).unwrap();
    for (i, f) in l.fields.iter().enumerate() {
        assert_eq!(f.offset % s.fields[i].align, 0);
        assert_eq!(f.name, s.fields[i].name);
        if i + 1 < l.fields.len() {
            assert!(f.offset + f.size <= l.fields[i + 1].offset);
        }
    }
    assert_eq!(
        names_offsets(&l),
        vec![("a", 0), ("b", 8), ("c", 16), ("d", 32), ("e", 48), ("f", 52)]
    );
    assert_eq!(l.total_size, 64);
    assert_eq!(l.total_size % l.align, 0);
}

#[test]
fn optimized_never_larger_than_declared() {
    let s = spec_of(&[("a", 1, 1), ("b", 8, 8), ("c", 2, 2), ("d", 16, 16), ("e", 1, 1), ("f", 4, 4)]);
    let d = compute_layout(&s, LayoutStrategy::Declared).unwrap();
    let o = compute_layout(&s, LayoutStrategy::Optimized).unwrap();
    assert_eq!(d.total_size, 64);
    assert_eq!(o.total_size, 32);
    assert!(o.total_size <= d.total_size);
    assert_eq!(o.align, d.align);
}

#[test]
fn packed_total_is_sum_of_sizes() {
    let s = spec_of(&[("a", 3, 1), ("b", 8, 8), ("c", 2, 2), ("d", 16, 16)]);
    let l = compute_layout(&s, LayoutStrategy::Packed).unwrap();
    assert_eq!(l.total_size, 29);
    assert_eq!(l.align, 1);
    assert_eq!(names_offsets(&l), vec![("a", 0), ("b", 3), ("c", 11), ("d", 13)]);
}

#[test]
fn computing_twice_gives_same_result() {
    for st in [LayoutStrategy::Declared, LayoutStrategy::Optimized, LayoutStrategy::Packed] {
        let a = compute_layout(&record(), st);
        let b = compute_layout(&record(), st);
        assert_eq!(a, b);
    }
    let bad = spec_of(&[("x", 1, 1), ("y", 2, 5)]);
    assert_eq!(
        compute_layout(&bad, LayoutStrategy::Declared),
        compute_layout(&bad, LayoutStrategy::Declared)
    );
}

#[test]
fn optimized_ties_by_size_then_declaration_order() {
    let s = spec_of(&[("p", 4, 4), ("q", 12, 4), ("r", 4, 4), ("s", 2, 2), ("t", 8, 4)]);
    let l = compute_layout(&s, LayoutStrategy::Optimized).unwrap();
    let names: Vec<&str> = l.fields.iter().map(|f| f.name.as_str()).collect();
    assert_eq!(names, vec!["q", "t", "p", "r", "s"]);
    assert_eq!(
        placed(&l),
        vec![
            ("q".to_string(), 0, 12),
            ("t".to_string(), 12, 8),
            ("p".to_string(), 20, 4),
            ("r".to_string(), 24, 4),
            ("s".to_string(), 28, 2),
        ]
    );
    assert_eq!(l.total_size, 32);
    assert_eq!(l.align, 4);
}

#[test]
fn trailing_padding_to_aggregate_alignment() {
    let s = spec_of(&[("big", 8, 8), ("tail", 1, 1)]);
    let l = compute_layout(&s, LayoutStrategy::Declared).unwrap();
    assert_eq!(l.total_size, 16);
    let p = compute_layout(&s, LayoutStrategy::Packed).unwrap();
    assert_eq!(p.total_size, 9);
}

#[test]
fn large_alignment_is_accepted() {
    let s = spec_of(&[("a", 1, 1), ("page", 4096, 4096)]);
    let l = compute_layout(&s, LayoutStrategy::Declared).unwrap();
    assert_eq!(names_offsets(&l), vec![("a", 0), ("page", 4096)]);
    assert_eq!(l.total_size, 8192);
    assert_eq!(l.align, 4096);
}

#[test]
fn layout_fits_detects_overflow() {
    assert!(layout_fits(&record()));
    assert!(layout_fits(&spec_of(&[])));
    assert!(!layout_fits(&spec_of(&[("huge", u64::MAX, 1)])));
    assert!(!layout_fits(&spec_of(&[("a", u64::MAX / 2, 1), ("b", u64::MAX / 2, 1)])));
}

#[test]
fn power_of_two_check() {
    for a in [1u64, 2, 4, 8, 1024, 1 << 63] {
        assert!(is_power_of_two(a));
    }
    for a in [0u64, 3, 6, 12, 1000, u64::MAX] {
        assert!(!is_power_of_two(a));
    }
}

#[test]
fn rounding_up_to_alignment() {
    assert_eq!(round_up_to(0, 8), 0);
    assert_eq!(round_up_to(1, 8), 8);
    assert_eq!(round_up_to(8, 8), 8);
    assert_eq!(round_up_to(9, 4), 12);
    assert_eq!(round_up_to(13, 1), 13);
}

#[test]
fn memory_layout_of_record() {
    let (c, o, p) = memory_layout();
    assert_eq!(names_offsets(&c), vec![("f1", 0), ("f2", 4), ("f3", 8), ("f4", 16)]);
    assert_eq!((c.total_size, c.align), (24, 8));
    assert_eq!(names_offsets(&o), vec![("f4", 0), ("f2", 8), ("f1", 12), ("f3", 13)]);
    assert_eq!((o.total_size, o.align), (16, 8));
    assert_eq!(names_offsets(&p), vec![("f1", 0), ("f2", 1), ("f3", 5), ("f4", 6)]);
    assert_eq!((p.total_size, p.align), (14, 1));
}

#[test]
fn record_fields_match_record() {
    assert_eq!(record_fields(), record());
    assert_eq!(pair_fields(), spec_of(&[("f1", 1, 1), ("f2", 8, 8)]));
}

#[test]
fn array_elements_are_padded_records() {
    assert_eq!(array_layout(), vec![0, 16, 32]);
}

#[test]
fn element_offsets_step_by_stride() {
    assert_eq!(element_offsets(12, 4), vec![0, 12, 24, 36]);
    assert_eq!(element_offsets(5, 0), Vec::<u64>::new());
}

#[test]
fn enumeration_values() {
    let (a, b) = enumeration_layout();
    assert_eq!(a, TwoVariants::V1(1));
    assert_eq!(b, TwoVariants::V2(1));
}

#[test]
fn optimized_can_be_larger_when_sizes_leave_gaps() {
    let s = spec_of(&[("a", 5, 4), ("c", 1, 1), ("b", 2, 2)]);
    let d = compute_layout(&s, LayoutStrategy::Declared).unwrap();
    let o = compute_layout(&s, LayoutStrategy::Optimized).unwrap();
    assert_eq!(names_offsets(&d), vec![("a", 0), ("c", 5), ("b", 6)]);
    assert_eq!(d.total_size, 8);
    assert_eq!(names_offsets(&o), vec![("a", 0), ("b", 6), ("c", 8)]);
    assert_eq!(o.total_size, 12);
}
