use vortex_regex::array::BoolArray;
use vortex_regex::array::PatternArray;
use vortex_regex::array::Validity;
use vortex_regex::array::VarBinViewArray;
use vortex_regex::dict::Codes;
use vortex_regex::dict::Dict;
use vortex_regex::dict::DictArray;
use vortex_regex::dict::RegexArray;
use vortex_regex::dtype::DType;
use vortex_regex::dtype::Nullability;
use vortex_regex::error::Error;
use vortex_regex::kernel::RegexParent;
use vortex_regex::kernel::RegexReduceAdaptor;
use vortex_regex::options::RegexOptions;
use vortex_regex::scalar::Scalar;

fn strings(rows: &[&str]) -> VarBinViewArray {
    VarBinViewArray {
        dtype: DType::Utf8(Nullability::NonNullable),
        bytes: rows.iter().map(|s| s.as_bytes().to_vec()).collect(),
        validity: Validity::NonNullable,
    }
}

fn dict(codes: &[usize], values: &[&str]) -> DictArray<VarBinViewArray> {
    DictArray {
        codes: Codes { codes: codes.to_vec(), validity: Validity::NonNullable },
        values: strings(values),
        all_values_referenced: false,
    }
}

fn reduce(
    array: &DictArray<VarBinViewArray>,
    pattern: &str,
    options: RegexOptions,
) -> Option<DictArray<RegexArray>> {
    let pattern = PatternArray::Constant {
        value: Scalar::utf8(pattern),
        len: array.codes.codes.len(),
    };
    let parent = RegexParent { options, pattern };
    RegexReduceAdaptor(Dict).reduce_parent(array, &parent, 0).unwrap()
}

fn run_regex(array: &DictArray<VarBinViewArray>, pattern: &str, options: RegexOptions) -> BoolArray {
    reduce(array, pattern, options).unwrap().execute().unwrap()
}

fn rows(array: &BoolArray) -> Vec<Option<bool>> {
    (0..array.bits.len()).map(|i| array.row(i)).collect()
}

fn bools(array: &BoolArray) -> Vec<bool> {
    rows(array).into_iter().map(|b| b.unwrap()).collect()
}

#[test]
fn regex_reduce_dict_match() {
    let dict = dict(&[0, 1, 0, 2], &["hello", "world", "help"]);
    let result = run_regex(&dict, "^hel", RegexOptions::default());
    assert_eq!(bools(&result), [true, false, true, true]);
    assert_eq!(result.validity, Validity::NonNullable);
}

#[test]
fn regex_reduce_dict_case_insensitive() {
    let dict = dict(&[0, 1, 0, 2], &["Hello", "WORLD", "help"]);
    let opts = RegexOptions { negated: false, case_insensitive: true };
    let result = run_regex(&dict, "^hel", opts);
    assert_eq!(bools(&result), [true, false, true, true]);
}

#[test]
fn regex_reduce_dict_negated() {
    let dict = dict(&[0, 1, 0, 2], &["hello", "world", "help"]);
    let opts = RegexOptions { negated: true, case_insensitive: false };
    let result = run_regex(&dict, "^hel", opts);
    assert_eq!(bools(&result), [false, true, false, false]);
}

#[test]
fn reduction_keeps_codes_and_flag() {
    let mut dict = dict(&[0, 1, 0, 2], &["hello", "world", "help"]);
    dict.all_values_referenced = true;
    let reduced = reduce(&dict, "^hel", RegexOptions::default()).unwrap();
    assert_eq!(reduced.codes, dict.codes);
    assert!(reduced.all_values_referenced);
    assert_eq!(reduced.values.input, dict.values);
    assert_eq!(
        reduced.values.pattern,
        PatternArray::Constant { value: Scalar::utf8("^hel"), len: 3 }
    );
}

#[test]
fn no_reduction_with_more_values_than_rows() {
    let wide = dict(&[0, 1], &["hello", "world", "help"]);
    assert!(reduce(&wide, "^hel", RegexOptions::default()).is_none());
    let even = dict(&[0, 1, 1], &["hello", "world", "help"]);
    assert!(reduce(&even, "^hel", RegexOptions::default()).is_some());
}

#[test]
fn no_reduction_for_other_operands_and_patterns() {
    let dict = dict(&[0, 1, 0], &["hello", "world"]);
    let adaptor = RegexReduceAdaptor(Dict);
    let options = RegexOptions::default();
    let per_row = PatternArray::PerRow(strings(&["a", "b", "c"]));
    let parent = RegexParent { options, pattern: per_row };
    assert!(adaptor.reduce_parent(&dict, &parent, 0).unwrap().is_none());
    let constant = PatternArray::Constant { value: Scalar::utf8("a"), len: 3 };
    let parent = RegexParent { options, pattern: constant };
    assert!(adaptor.reduce_parent(&dict, &parent, 1).unwrap().is_none());
    assert!(adaptor.reduce_parent(&dict, &parent, 0).unwrap().is_some());
}

#[test]
fn reduction_of_what_is_no_string_fails() {
    let mut dict = dict(&[0], &["a"]);
    dict.values.dtype = DType::Binary(Nullability::NonNullable);
    let constant = PatternArray::Constant { value: Scalar::utf8("a"), len: 1 };
    let parent = RegexParent { options: RegexOptions::default(), pattern: constant };
    let err = RegexReduceAdaptor(Dict).reduce_parent(&dict, &parent, 0).unwrap_err();
    assert!(matches!(err, Error::InputDType(_)));
    let pattern = PatternArray::Constant {
        value: Scalar::Bool(true, Nullability::NonNullable),
        len: 1,
    };
    let err = RegexArray::try_new(strings(&["a"]), pattern, RegexOptions::default()).unwrap_err();
    assert!(matches!(err, Error::PatternDType(_)));
}

#[test]
fn null_codes_and_null_values_give_null_rows() {
    let dict = DictArray {
        codes: Codes {
            codes: vec![0, 1, 0, 2],
            validity: Validity::Array(vec![true, true, false, true]),
        },
        values: VarBinViewArray {
            dtype: DType::Utf8(Nullability::Nullable),
            bytes: vec![b"hello".to_vec(), b"".to_vec(), b"world".to_vec()],
            validity: Validity::Array(vec![true, false, true]),
        },
        all_values_referenced: true,
    };
    let result = run_regex(&dict, "^hel", RegexOptions::default());
    assert_eq!(rows(&result), [Some(true), None, None, Some(false)]);
}

#[test]
fn a_failing_match_of_the_values_fails() {
    let dict = dict(&[0, 0], &["a"]);
    let err = reduce(&dict, "(", RegexOptions::default()).unwrap().execute().unwrap_err();
    assert!(matches!(err, Error::InvalidPattern { .. }));
}

#[test]
fn result_is_nullable_if_values_codes_or_pattern_are() {
    let plain = dict(&[0, 0], &["a"]);
    let nullable = |array: &DictArray<VarBinViewArray>, pattern: Scalar| {
        let pattern = PatternArray::Constant { value: pattern, len: 2 };
        let parent = RegexParent { options: RegexOptions::default(), pattern };
        let reduced = RegexReduceAdaptor(Dict).reduce_parent(array, &parent, 0).unwrap().unwrap();
        let result = reduced.execute().unwrap();
        assert_eq!(rows(&result), [Some(true), Some(true)]);
        result.validity != Validity::NonNullable
    };
    assert!(!nullable(&plain, Scalar::utf8("a")));
    assert!(nullable(&plain, Scalar::Utf8("a".to_string(), Nullability::Nullable)));
    let mut codes = dict(&[0, 0], &["a"]);
    codes.codes.validity = Validity::AllValid;
    assert!(nullable(&codes, Scalar::utf8("a")));
    let mut values = dict(&[0, 0], &["a"]);
    values.values.dtype = DType::Utf8(Nullability::Nullable);
    values.values.validity = Validity::AllValid;
    assert!(nullable(&values, Scalar::utf8("a")));
}
