use std::collections::BTreeSet;

use vortex_regex::array::BoolArray;
use vortex_regex::array::Validity;
use vortex_regex::dict::Codes;
use vortex_regex::dtype::DType;
use vortex_regex::dtype::Nullability;
use vortex_regex::dtype::PType;
use vortex_regex::error::Error;
use vortex_regex::expr::eq;
use vortex_regex::expr::get_item;
use vortex_regex::expr::is_null;
use vortex_regex::expr::lit;
use vortex_regex::expr::lt;
use vortex_regex::expr::or;
use vortex_regex::expr::root;
use vortex_regex::expr::Expression;
use vortex_regex::layout::dictionary::code_scalar;
use vortex_regex::layout::dictionary::codes_name;
use vortex_regex::layout::dictionary::filter_codes;
use vortex_regex::layout::dictionary::is_prunable_dict_eq;
use vortex_regex::layout::dictionary::prune_codes;
use vortex_regex::layout::dictionary::pruning_ptype;
use vortex_regex::layout::dictionary::values_len;
use vortex_regex::layout::dictionary::values_name;
use vortex_regex::layout::dictionary::Pruning;
use vortex_regex::layout::flat::expand_mask;
use vortex_regex::layout::flat::filter_evaluation;
use vortex_regex::layout::flat::narrow_to_true_span;
use vortex_regex::layout::flat::projection_evaluation;
use vortex_regex::layout::flat::register_splits;
use vortex_regex::layout::flat::FlatPlan;
use vortex_regex::layout::flat::SplitRange;
use vortex_regex::mask::Mask;
use vortex_regex::scalar::PValue;
use vortex_regex::scalar::Scalar;

fn lit_i32(v: i32) -> Expression {
    lit(Scalar::Primitive(PValue::I32(v), Nullability::NonNullable))
}

fn true_indices(mask: &Mask) -> Vec<usize> {
    (0..mask.len()).filter(|&i| mask.value(i)).collect()
}

#[test]
fn is_prunable_dict_eq_gate() {
    // `root == lit` (either operand order) is prunable.
    assert!(is_prunable_dict_eq(&eq(root(), lit_i32(1))));
    assert!(is_prunable_dict_eq(&eq(lit_i32(1), root())));
    // An OR-tree of root-equalities (the IN-list shape) is prunable.
    assert!(is_prunable_dict_eq(&or(
        eq(root(), lit_i32(1)),
        or(eq(root(), lit_i32(2)), eq(root(), lit_i32(3))),
    )));

    // IS NULL must never drive a skip (min/max ignore nulls).
    assert!(!is_prunable_dict_eq(&is_null(root())));
    // Range predicates: dict codes are storage- not value-ordered.
    assert!(!is_prunable_dict_eq(&lt(root(), lit_i32(1))));
    // Equality whose column side isn't the dict root (un-peeled `get_item`).
    assert!(!is_prunable_dict_eq(&eq(get_item("a", root()), lit_i32(1))));
    // A null literal is excluded.
    let null_lit = lit(Scalar::Null(DType::Primitive(PType::I32, Nullability::Nullable)));
    assert!(!is_prunable_dict_eq(&eq(root(), null_lit)));
    // An OR with a non-equality branch is not (wholly) prunable.
    assert!(!is_prunable_dict_eq(&or(eq(root(), lit_i32(1)), lt(root(), lit_i32(2)))));
}

#[test]
fn pruning_starts_for_equalities_on_primitive_codes() {
    let codes = DType::Primitive(PType::U16, Nullability::NonNullable);
    assert_eq!(pruning_ptype(&eq(root(), lit_i32(1)), &codes), Some(PType::U16));
    assert_eq!(pruning_ptype(&lt(root(), lit_i32(1)), &codes), None);
    let text = DType::Utf8(Nullability::NonNullable);
    assert_eq!(pruning_ptype(&eq(root(), lit_i32(1)), &text), None);
}

#[test]
fn pruning_rewrites_to_codes() {
    let mask = Mask::new_true(3);
    let satisfied = Mask::from_bits(vec![false, true, false, true]);
    match prune_codes(&satisfied, PType::U8, mask.clone()).unwrap() {
        Pruning::Codes(predicate, kept) => {
            assert_eq!(predicate.to_string(), "(($ = 1u8) or ($ = 3u8))");
            assert_eq!(kept, mask);
        }
        Pruning::Done(_) => panic!("codes are left to prune"),
    }
    // No entry matches: no row does.
    match prune_codes(&Mask::new_false(4), PType::U8, mask.clone()).unwrap() {
        Pruning::Done(none) => assert_eq!(none, Mask::new_false(3)),
        Pruning::Codes(..) => panic!("nothing is left to prune"),
    }
    // A code that is no number of the type is cut off like the codes are.
    let mut wide = vec![false; 300];
    wide[299] = true;
    match prune_codes(&Mask::from_bits(wide), PType::U8, mask.clone()).unwrap() {
        Pruning::Codes(predicate, _) => assert_eq!(predicate.to_string(), "($ = 43u8)"),
        Pruning::Done(_) => panic!("codes are left to prune"),
    }
    // Every entry matches.
    match prune_codes(&Mask::new_true(2), PType::I64, mask).unwrap() {
        Pruning::Codes(predicate, _) => {
            assert_eq!(predicate.to_string(), "(($ = 0i64) or ($ = 1i64))")
        }
        Pruning::Done(_) => panic!("codes are left to prune"),
    }
}

#[test]
fn pruning_needs_integer_codes() {
    let err = prune_codes(&Mask::new_true(1), PType::F32, Mask::new_true(1)).unwrap_err();
    assert_eq!(err.to_string(), "unexpected dict codes ptype F32 for code-domain pruning");
    assert!(matches!(code_scalar(0, PType::F64), Err(Error::CodesPType(PType::F64))));
    // Without a matching entry the type does not matter.
    assert!(prune_codes(&Mask::new_false(1), PType::F32, Mask::new_true(1)).is_ok());
}

#[test]
fn code_scalars_have_the_type_of_the_codes() {
    let n = Nullability::NonNullable;
    let scalar = |ptype| code_scalar(300, ptype).unwrap();
    assert_eq!(scalar(PType::U8), Scalar::Primitive(PValue::U8(44), n));
    assert_eq!(scalar(PType::U16), Scalar::Primitive(PValue::U16(300), n));
    assert_eq!(scalar(PType::U32), Scalar::Primitive(PValue::U32(300), n));
    assert_eq!(scalar(PType::U64), Scalar::Primitive(PValue::U64(300), n));
    assert_eq!(scalar(PType::I8), Scalar::Primitive(PValue::I8(44), n));
    assert_eq!(scalar(PType::I16), Scalar::Primitive(PValue::I16(300), n));
    assert_eq!(scalar(PType::I32), Scalar::Primitive(PValue::I32(300), n));
    assert_eq!(scalar(PType::I64), Scalar::Primitive(PValue::I64(300), n));
}

fn filter_dict(outcome: Vec<bool>, codes: Vec<Option<usize>>, mask: Vec<bool>) -> Mask {
    let outcome = BoolArray { bits: outcome, validity: Validity::NonNullable };
    let codes = Codes {
        validity: Validity::Array(codes.iter().map(|c| c.is_some()).collect()),
        codes: codes.iter().map(|c| c.unwrap_or(0)).collect(),
    };
    filter_codes(&outcome, &codes, &Mask::from_bits(mask))
}

#[test]
fn filtering_looks_codes_up() {
    // All entries match, but nulls are excluded.
    let result = filter_dict(vec![true], vec![Some(0), None, Some(0)], vec![true; 3]);
    assert_eq!(result, Mask::from_bits(vec![true, false, true]));
    // No entry matches.
    let result = filter_dict(vec![false], vec![Some(0), None, Some(0)], vec![true; 3]);
    assert_eq!(result, Mask::new_false(3));
    // Rows that are not selected stay so.
    let result = filter_dict(
        vec![true, false],
        vec![Some(0), Some(1), Some(0)],
        vec![false, true, true],
    );
    assert_eq!(true_indices(&result), [2]);
    // An entry whose outcome is null is left out.
    let outcome = BoolArray {
        bits: vec![true, true],
        validity: Validity::Array(vec![false, true]),
    };
    let codes = Codes { codes: vec![0, 1], validity: Validity::NonNullable };
    assert_eq!(true_indices(&filter_codes(&outcome, &codes, &Mask::new_true(2))), [1]);
}

#[test]
fn dictionary_children() {
    assert_eq!(values_name("a"), "a.values");
    assert_eq!(codes_name("a"), "a.codes");
    assert_eq!(values_len(7).unwrap(), 7);
    assert_eq!(Error::TooManyValues(7).to_string(), "too many dictionary values: 7");
}

#[test]
fn flat_identity() {
    let array = [1, 2, 3, 4, 5];
    let result = projection_evaluation(&array, 0, 5, |v: i32| v, Mask::new_true(5));
    assert_eq!(result, array);
}

#[test]
fn flat_expr() {
    let array = [1, 2, 3, 4, 5];
    let result = projection_evaluation(&array, 0, 5, |v: i32| v > 3, Mask::new_true(5));
    assert_eq!(result, [false, false, false, true, true]);
}

#[test]
fn flat_unaligned_row_mask() {
    let array = [1, 2, 3, 4, 5];
    let result = projection_evaluation(&array, 2, 4, |v: i32| v, Mask::new_true(2));
    assert_eq!(result, [3, 4]);
}

#[test]
fn flat_dense_in_range_projection_parity() {
    let array: Vec<i32> = (0..100).collect();
    let mask = Mask::from_indices(100, &[40, 41, 42, 43, 44, 45]);
    let result = projection_evaluation(&array, 0, 100, |v: i32| v, mask);
    assert_eq!(result, (40..46).collect::<Vec<i32>>());
}

#[test]
fn flat_dense_in_range_filter_parity() {
    let array: Vec<i32> = (0..100).collect();
    let mask = Mask::from_indices(100, &[40, 41, 42, 43, 44, 45]);
    let result = filter_evaluation(&array, 0, 100, |v: i32| v > 42, mask);
    assert_eq!(result.len(), 100, "result must span the full row range");
    assert_eq!(true_indices(&result), vec![43, 44, 45]);
}

#[test]
fn flat_broad_mask_filter_unchanged() {
    let array: Vec<i32> = (0..100).collect();
    let result = filter_evaluation(&array, 0, 100, |v: i32| v > 50, Mask::new_true(100));
    assert_eq!(true_indices(&result), (51..100).collect::<Vec<_>>());
}

#[test]
fn projection_selects_before_it_computes() {
    // The expression fails on rows that are not selected.
    let array = [10, 300, 20];
    let mask = Mask::from_bits(vec![true, false, true]);
    let result = projection_evaluation(&array, 0, 3, |v: i32| u8::try_from(v).unwrap(), mask);
    assert_eq!(result, [10u8, 20u8]);
}

#[test]
fn filter_result_does_not_depend_on_the_plan() {
    let array: Vec<usize> = (0..40).collect();
    let masks = [
        vec![3],
        vec![3, 35],
        vec![0, 1, 2, 3, 4, 5],
        vec![10, 11, 12, 30],
        (0..40).collect(),
        vec![],
        vec![0, 19],
        vec![0, 20],
    ];
    for selected in masks {
        let mask = Mask::from_indices(40, &selected);
        let result = filter_evaluation(&array, 0, 40, |v: usize| v % 2 == 1, mask);
        let expected: Vec<usize> = selected.iter().copied().filter(|v| v % 2 == 1).collect();
        assert_eq!(true_indices(&result), expected);
    }
}

#[test]
fn plans_narrow_to_at_most_half() {
    let plan = |indices: &[usize]| {
        let plan = FlatPlan::new(100, 110, Mask::from_indices(10, indices));
        (plan.start, plan.end, plan.offset, plan.is_sparse())
    };
    assert_eq!(plan(&[2, 6]), (102, 107, 2, false));
    assert_eq!(plan(&[2, 7]), (100, 110, 0, false));
    assert_eq!(plan(&[9]), (109, 110, 9, false));
    assert_eq!(plan(&[]), (100, 110, 0, true));
    assert_eq!(plan(&[0, 1, 2, 3, 4, 5, 6, 7, 8, 9]), (100, 110, 0, false));
}

#[test]
fn sparse_means_less_than_a_fifth() {
    assert!(Mask::from_indices(10, &[1]).is_sparse());
    assert!(!Mask::from_indices(10, &[1, 2]).is_sparse());
    assert!(Mask::from_indices(11, &[1, 2]).is_sparse());
    assert!(!Mask::from_indices(5, &[1]).is_sparse());
}

#[test]
fn narrowing_keeps_the_selected_rows() {
    let array = [0, 1, 2, 3, 4, 5, 6, 7, 8, 9];
    let mask = Mask::from_indices(10, &[3, 6]);
    let (rows, narrow, offset) = narrow_to_true_span(&array, mask.clone());
    assert_eq!((rows, offset), (&[3, 4, 5, 6][..], 3));
    assert_eq!(narrow, Mask::from_bits(vec![true, false, false, true]));
    assert_eq!(narrow.filter(rows), mask.filter(&array));
    assert_eq!(expand_mask(narrow, offset, 10), mask);

    let wide = Mask::from_indices(10, &[0, 9]);
    let (rows, same, offset) = narrow_to_true_span(&array, wide.clone());
    assert_eq!((rows.len(), offset), (10, 0));
    assert_eq!(same, wide);
}

#[test]
fn expanding_masks() {
    let bits = |b: &[bool]| Mask::from_bits(b.to_vec());
    assert_eq!(expand_mask(bits(&[true, true]), 1, 4), bits(&[false, true, true, false]));
    assert_eq!(expand_mask(bits(&[false, false]), 1, 4), Mask::new_false(4));
    assert_eq!(expand_mask(bits(&[false, true]), 2, 4), bits(&[false, false, false, true]));
    assert_eq!(expand_mask(bits(&[true, false]), 0, 2), bits(&[true, false]));
    assert_eq!(expand_mask(bits(&[true, false]), 0, 3), bits(&[true, false, false]));
}

#[test]
fn masks() {
    let mask = Mask::from_indices(6, &[4, 1, 4]);
    assert_eq!(mask.indices(), [1, 4]);
    assert_eq!((mask.first(), mask.last()), (Some(1), Some(4)));
    assert_eq!(mask.true_count(), 2);
    assert!(!mask.all_true());
    assert_eq!(mask.slice(1, 5), Mask::from_indices(4, &[0, 3]));
    assert_eq!(mask.bitand(&Mask::from_indices(6, &[0, 4])), Mask::from_indices(6, &[4]));
    assert_eq!(
        mask.intersect_by_rank(&Mask::from_bits(vec![true, false])),
        Mask::from_indices(6, &[1])
    );
    assert_eq!(mask.filter(&['a', 'b', 'c', 'd', 'e', 'f']), ['b', 'e']);
    assert_eq!(Mask::from_slices(5, &[(0, 1), (3, 5)]), Mask::from_indices(5, &[0, 3, 4]));
    assert_eq!((Mask::new_false(2).first(), Mask::new_false(2).last()), (None, None));
    assert!(Mask::new_true(2).all_true());
}

#[test]
fn splits_end_where_ranges_end() {
    let mut splits = BTreeSet::new();
    let range = SplitRange { row_offset: 100, start: 0, end: 50 };
    register_splits(&range, 50, &mut splits).unwrap();
    assert_eq!(splits.iter().copied().collect::<Vec<u64>>(), [150]);
    let err = register_splits(&range, 49, &mut splits).unwrap_err();
    assert_eq!(err.to_string(), "split range ends at row 50 of 49");
    assert_eq!(splits.len(), 1);
}
