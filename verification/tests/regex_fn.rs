use vortex_regex::array::BoolArray;
use vortex_regex::array::PatternArray;
use vortex_regex::array::Validity;
use vortex_regex::array::VarBinViewArray;
use vortex_regex::dtype::DType;
use vortex_regex::dtype::Nullability;
use vortex_regex::dtype::PType;
use vortex_regex::error::Error;
use vortex_regex::expr::and;
use vortex_regex::expr::col;
use vortex_regex::expr::iregex;
use vortex_regex::expr::is_null;
use vortex_regex::expr::lit;
use vortex_regex::expr::not_iregex;
use vortex_regex::expr::not_regex;
use vortex_regex::expr::or_collect;
use vortex_regex::expr::regex as regex_expr;
use vortex_regex::expr::root;
use vortex_regex::expr::Expression;
use vortex_regex::literal_shape::is_literal_body;
use vortex_regex::literal_shape::RegexLiteralShape;
use vortex_regex::options::RegexOptions;
use vortex_regex::scalar::PValue;
use vortex_regex::scalar::Scalar;
use vortex_regex::scalar_fn::Arity;
use vortex_regex::scalar_fn::Regex;
use vortex_regex::scalar_fn::StatBounds;
use vortex_regex::text::increment;

fn strings(rows: &[&str]) -> VarBinViewArray {
    VarBinViewArray {
        dtype: DType::Utf8(Nullability::NonNullable),
        bytes: rows.iter().map(|s| s.as_bytes().to_vec()).collect(),
        validity: Validity::NonNullable,
    }
}

fn nullable_strings(rows: &[Option<&str>]) -> VarBinViewArray {
    VarBinViewArray {
        dtype: DType::Utf8(Nullability::Nullable),
        bytes: rows.iter().map(|s| s.unwrap_or("").as_bytes().to_vec()).collect(),
        validity: Validity::Array(rows.iter().map(|s| s.is_some()).collect()),
    }
}

fn text(s: &str) -> Scalar {
    Scalar::utf8(s)
}

fn run_regex(array: &VarBinViewArray, pattern: &str, opts: RegexOptions) -> Result<BoolArray, Error> {
    let pattern = PatternArray::Constant { value: text(pattern), len: array.len() };
    Regex.execute(&opts, array, &pattern)
}

fn rows(array: &BoolArray) -> Vec<Option<bool>> {
    (0..array.bits.len()).map(|i| array.row(i)).collect()
}

fn bools(array: &BoolArray) -> Vec<bool> {
    rows(array).into_iter().map(|b| b.unwrap()).collect()
}

#[test]
fn dtype() {
    let dtype = DType::Utf8(Nullability::NonNullable);
    let pattern = text("^foo").dtype();
    assert_eq!(
        Regex.return_dtype(&RegexOptions::default(), &[dtype, pattern]).unwrap(),
        DType::Bool(Nullability::NonNullable)
    );
}

#[test]
fn dtype_is_nullable_if_an_operand_is() {
    let utf8 = DType::Utf8(Nullability::NonNullable);
    let nullable = DType::Utf8(Nullability::Nullable);
    let opts = RegexOptions::default();
    for dtypes in [[utf8, nullable], [nullable, utf8], [nullable, nullable]] {
        assert_eq!(
            Regex.return_dtype(&opts, &dtypes).unwrap(),
            DType::Bool(Nullability::Nullable)
        );
    }
}

#[test]
fn dtype_errors() {
    let utf8 = DType::Utf8(Nullability::NonNullable);
    let number = DType::Primitive(PType::I32, Nullability::Nullable);
    let opts = RegexOptions::default();
    let err = Regex.return_dtype(&opts, &[number, utf8]).unwrap_err();
    assert!(matches!(err, Error::InputDType(d) if d == number));
    assert_eq!(err.to_string(), "REGEX expression requires UTF8 input dtype, got i32?");
    let err = Regex.return_dtype(&opts, &[utf8, DType::Bool(Nullability::NonNullable)]).unwrap_err();
    assert_eq!(err.to_string(), "REGEX expression requires UTF8 pattern dtype, got bool");
}

#[test]
fn proto_roundtrip() {
    for opts in [
        RegexOptions { negated: false, case_insensitive: false },
        RegexOptions { negated: true, case_insensitive: false },
        RegexOptions { negated: false, case_insensitive: true },
        RegexOptions { negated: true, case_insensitive: true },
    ] {
        let serialized = Regex.serialize(&opts).unwrap().expect("regex always serializable");
        let deserialized = Regex.deserialize(&serialized).unwrap();
        assert_eq!(deserialized, opts);
    }
}

#[test]
fn proto_bytes() {
    let opts = RegexOptions { negated: true, case_insensitive: true };
    assert_eq!(Regex.serialize(&opts).unwrap().unwrap(), vec![0x08, 0x01, 0x10, 0x01]);
    let opts = RegexOptions { negated: false, case_insensitive: true };
    assert_eq!(Regex.serialize(&opts).unwrap().unwrap(), vec![0x10, 0x01]);
    assert_eq!(Regex.serialize(&RegexOptions::default()).unwrap().unwrap(), Vec::<u8>::new());
    // The last value of a field counts, and unknown fields are skipped.
    assert_eq!(
        Regex.deserialize(&[0x08, 0x01, 0x08, 0x00]).unwrap(),
        RegexOptions::default()
    );
    assert_eq!(
        Regex.deserialize(&[0x1a, 0x02, 0xff, 0xff, 0x08, 0x01]).unwrap(),
        RegexOptions { negated: true, case_insensitive: false }
    );
}

#[test]
fn proto_errors() {
    // A field without a value, a wrong wire type, and a truncated key.
    for bytes in [vec![0x08u8], vec![0x0a, 0x01, 0x00], vec![0x80]] {
        let err = Regex.deserialize(&bytes).unwrap_err();
        assert!(matches!(err, Error::Decode(_)));
        assert!(!err.to_string().is_empty());
    }
    // A field that is skipped must still be whole.
    assert!(matches!(Regex.deserialize(&[0x1a, 0x05, 0x00]), Err(Error::Decode(_))));
}

#[test]
fn varbin_basic_match() {
    let arr = strings(&["hello world", "goodbye", "say hello"]);
    let result = run_regex(&arr, "^hello", RegexOptions::default()).unwrap();
    assert_eq!(bools(&result), [true, false, false]);
    assert_eq!(result.validity, Validity::NonNullable);
}

#[test]
fn varbinview_contains_unanchored() {
    let arr = strings(&["alphabet", "beta", "gamma"]);
    let result = run_regex(&arr, "et", RegexOptions::default()).unwrap();
    assert_eq!(bools(&result), [true, true, false]);
}

#[test]
fn case_insensitive() {
    let arr = strings(&["HELLO", "Hello", "world"]);
    let opts = RegexOptions { negated: false, case_insensitive: true };
    let result = run_regex(&arr, "^hello$", opts).unwrap();
    assert_eq!(bools(&result), [true, true, false]);
}

#[test]
fn negated() {
    let arr = strings(&["abc", "xyz", "abz"]);
    let opts = RegexOptions { negated: true, case_insensitive: false };
    let result = run_regex(&arr, "^ab", opts).unwrap();
    assert_eq!(bools(&result), [false, true, false]);
}

#[test]
fn negated_case_insensitive() {
    let arr = strings(&["AbC", "xyz", "abz"]);
    let opts = RegexOptions { negated: true, case_insensitive: true };
    let result = run_regex(&arr, "^ab", opts).unwrap();
    assert_eq!(bools(&result), [false, true, false]);
}

#[test]
fn nullable_input_propagates() {
    let arr = nullable_strings(&[Some("foo"), None, Some("bar")]);
    let result = run_regex(&arr, "^fo", RegexOptions::default()).unwrap();
    assert_eq!(rows(&result), [Some(true), None, Some(false)]);
}

#[test]
fn invalid_pattern_errors() {
    let arr = strings(&["abc"]);
    let err = run_regex(&arr, "(", RegexOptions::default()).unwrap_err();
    let msg = err.to_string();
    assert!(msg.contains("regex"), "unexpected error: {msg}");
    assert!(msg.starts_with("Failed to compile regex pattern '(': "));
    assert!(matches!(err, Error::InvalidPattern { pattern, .. } if pattern == "("));
}

#[test]
fn nullable_pattern_makes_the_result_nullable() {
    let arr = strings(&["foo", "bar"]);
    let value = Scalar::Utf8("^fo".to_string(), Nullability::Nullable);
    let pattern = PatternArray::Constant { value, len: 2 };
    let result = Regex.execute(&RegexOptions::default(), &arr, &pattern).unwrap();
    assert_eq!(rows(&result), [Some(true), Some(false)]);
    assert_eq!(result.validity, Validity::AllValid);
}

#[test]
fn null_pattern_gives_nulls() {
    let arr = strings(&["foo", "bar"]);
    let pattern = PatternArray::Constant {
        value: Scalar::Null(DType::Utf8(Nullability::Nullable)),
        len: 2,
    };
    let result = Regex.execute(&RegexOptions::default(), &arr, &pattern).unwrap();
    assert_eq!(rows(&result), [None, None]);
}

#[test]
fn a_row_that_is_no_text_does_not_match() {
    let mut arr = strings(&["a", "b"]);
    arr.bytes[1] = vec![0x61, 0xff];
    let result = run_regex(&arr, "a", RegexOptions::default()).unwrap();
    assert_eq!(bools(&result), [true, false]);
    let opts = RegexOptions { negated: true, case_insensitive: false };
    let result = run_regex(&arr, "a", opts).unwrap();
    assert_eq!(bools(&result), [false, true]);
}

#[test]
fn execute_errors() {
    let opts = RegexOptions::default();
    let arr = strings(&["a"]);
    let pattern = PatternArray::PerRow(strings(&["a"]));
    let err = Regex.execute(&opts, &arr, &pattern).unwrap_err();
    assert_eq!(err.to_string(), "REGEX pattern must be a constant expression");
    let pattern = PatternArray::Constant {
        value: Scalar::Bool(true, Nullability::NonNullable),
        len: 1,
    };
    let err = Regex.execute(&opts, &arr, &pattern).unwrap_err();
    assert_eq!(err.to_string(), "regex_execute requires a UTF8 pattern, got bool");
    let mut binary = strings(&["a"]);
    binary.dtype = DType::Binary(Nullability::NonNullable);
    let err = run_regex(&binary, "a", opts).unwrap_err();
    assert_eq!(err.to_string(), "regex_execute requires a UTF8 input array, got binary");
}

#[test]
fn literal_shape_analyzer() {
    assert_eq!(RegexLiteralShape::analyze("^foo$"), Some(RegexLiteralShape::Exact("foo")));
    assert_eq!(RegexLiteralShape::analyze("^foo"), Some(RegexLiteralShape::Prefix("foo")));
    assert_eq!(RegexLiteralShape::analyze("foo$"), Some(RegexLiteralShape::Suffix("foo")));
    assert_eq!(RegexLiteralShape::analyze("foo"), Some(RegexLiteralShape::Contains("foo")));
    // Empty literal forms are still literal.
    assert_eq!(RegexLiteralShape::analyze("^$"), Some(RegexLiteralShape::Exact("")));
    assert_eq!(RegexLiteralShape::analyze("^"), Some(RegexLiteralShape::Prefix("")));
    assert_eq!(RegexLiteralShape::analyze("$"), Some(RegexLiteralShape::Suffix("")));
    assert_eq!(RegexLiteralShape::analyze(""), Some(RegexLiteralShape::Contains("")));

    // Metacharacters in the body disqualify the pattern.
    assert!(RegexLiteralShape::analyze("^a.b").is_none());
    assert!(RegexLiteralShape::analyze("^a*").is_none());
    assert!(RegexLiteralShape::analyze("^(a|b)$").is_none());
    // Escapes are rejected, even where they make a character literal.
    assert!(RegexLiteralShape::analyze("^a\\.b").is_none());
    // Anchors inside the body are not allowed either.
    assert!(RegexLiteralShape::analyze("^a^b").is_none());
    assert!(RegexLiteralShape::analyze("a$b$").is_none());
}

#[test]
fn literal_shape_of_text_beyond_ascii() {
    let shape = RegexLiteralShape::analyze("^größe$").unwrap();
    assert_eq!(shape, RegexLiteralShape::Exact("größe"));
    assert_eq!(shape.literal(), "größe");
    assert_eq!(RegexLiteralShape::analyze("é").unwrap().literal(), "é");
    assert!(is_literal_body("é-#& ~".as_bytes()));
    for c in [".", "*", "+", "?", "(", ")", "[", "]", "{", "}", "|", "\\", "^", "$"] {
        assert!(!is_literal_body(c.as_bytes()));
    }
}

#[test]
fn literal_patterns_match_what_their_shape_asks_for() {
    let arr = strings(&["foo", "foobar", "barfoo", "barfoobar", "bar"]);
    let opts = RegexOptions::default();
    let expect = [
        ("^foo$", [true, false, false, false, false]),
        ("^foo", [true, true, false, false, false]),
        ("foo$", [true, false, true, false, false]),
        ("foo", [true, true, true, true, false]),
    ];
    for (pattern, hits) in expect {
        assert_eq!(bools(&run_regex(&arr, pattern, opts).unwrap()), hits);
    }
}

fn bounds() -> StatBounds {
    StatBounds { min: Some(col("a_min")), max: Some(col("a_max")) }
}

fn falsification(expr: &Expression, bounds: &StatBounds) -> Option<Expression> {
    match expr {
        Expression::Regex { options, pattern, .. } => {
            Regex.stat_falsification(options, pattern, bounds)
        }
        _ => panic!("not a match"),
    }
}

#[test]
fn regex_stat_falsification() {
    let bounds = bounds();

    let pruning = falsification(&regex_expr(col("a"), lit(text("^prefix"))), &bounds)
        .expect("anchored prefix should prune");
    assert_eq!(pruning.to_string(), r#"(($.a_min >= "prefiy") or ($.a_max < "prefix"))"#);

    let pruning = falsification(&regex_expr(col("a"), lit(text("^exactly$"))), &bounds)
        .expect("anchored exact should prune");
    assert_eq!(pruning.to_string(), r#"(($.a_min > "exactly") or ($.a_max < "exactly"))"#);

    // Contains and suffix patterns have no min/max pruning.
    assert!(falsification(&regex_expr(col("a"), lit(text("suffix$"))), &bounds).is_none());
    assert!(falsification(&regex_expr(col("a"), lit(text("contains"))), &bounds).is_none());

    // Negated and case-insensitive variants don't prune even on otherwise
    // literal patterns.
    assert!(falsification(&not_regex(col("a"), lit(text("^prefix"))), &bounds).is_none());
    assert!(falsification(&iregex(col("a"), lit(text("^prefix"))), &bounds).is_none());

    // Non-literal patterns don't prune.
    assert!(falsification(&regex_expr(col("a"), lit(text("^a.b"))), &bounds).is_none());
}

#[test]
fn falsification_needs_bounds_and_a_successor() {
    let expr = regex_expr(col("a"), lit(text("^a")));
    assert!(falsification(&expr, &StatBounds { min: None, max: Some(col("m")) }).is_none());
    assert!(falsification(&expr, &StatBounds { min: Some(col("m")), max: None }).is_none());
    // Nothing comes after every string that begins with nothing.
    assert!(falsification(&regex_expr(col("a"), lit(text("^"))), &bounds()).is_none());
    let null = lit(Scalar::Null(DType::Utf8(Nullability::Nullable)));
    assert!(falsification(&regex_expr(col("a"), null), &bounds()).is_none());
}

#[test]
fn successor_of_a_prefix() {
    assert_eq!(increment("prefix".to_string()), Ok("prefiy".to_string()));
    assert_eq!(increment("a\u{7f}".to_string()), Ok("a\u{80}".to_string()));
    assert!(increment(String::new()).is_err());
    // Every text with the prefix comes before the successor, and none before
    // the prefix.
    for prefix in ["a", "z", "aé", "日"] {
        let next = increment(prefix.to_string()).unwrap();
        for rest in ["", "a", "zzz", "\u{10ffff}"] {
            let text = format!("{prefix}{rest}");
            assert!(text < next);
            assert!(text.as_str() >= prefix);
        }
    }
}

#[test]
fn display_includes_pattern() {
    let e1 = regex_expr(root(), lit(text("^a")));
    assert_eq!(e1.to_string(), "$ ~ \"^a\"");
    let e2 = iregex(root(), lit(text("b")));
    assert_eq!(e2.to_string(), "$ ~* \"b\"");
    let e3 = not_regex(root(), lit(text("c")));
    assert_eq!(e3.to_string(), "$ !~ \"c\"");
    let e4 = not_iregex(root(), lit(text("d")));
    assert_eq!(e4.to_string(), "$ !~* \"d\"");
}

#[test]
fn display_of_expressions() {
    let mut out = String::from("> ");
    let opts = RegexOptions { negated: true, case_insensitive: true };
    Regex.fmt_sql(&opts, &col("a"), &lit(text("x")), &mut out);
    assert_eq!(out, "> $.a !~* \"x\"");
    assert_eq!(is_null(root()).to_string(), "is_null($)");
    let number = Scalar::Primitive(PValue::I32(-12), Nullability::NonNullable);
    assert_eq!(and(root(), lit(number)).to_string(), "($ and -12i32)");
    assert_eq!(or_collect(vec![]), None);
    assert_eq!(
        or_collect(vec![col("a"), col("b"), col("c")]).unwrap().to_string(),
        "(($.a or $.b) or $.c)"
    );
}

#[test]
fn options_and_signature() {
    let show = |negated, case_insensitive| RegexOptions { negated, case_insensitive }.to_string();
    assert_eq!(show(false, false), "REGEXP_MATCH");
    assert_eq!(show(false, true), "REGEXP_IMATCH");
    assert_eq!(show(true, false), "NOT REGEXP_MATCH");
    assert_eq!(show(true, true), "NOT REGEXP_IMATCH");
    let opts = RegexOptions::default();
    assert_eq!(Regex.id(), "vortex.regex");
    assert_eq!(Regex.arity(&opts), Arity::Exact(2));
    assert_eq!(Regex.child_name(&opts, 0), "child");
    assert_eq!(Regex.child_name(&opts, 1), "pattern");
    assert!(!Regex.is_null_sensitive(&opts));
    let validity = Regex.validity(&opts, col("v"), col("w")).unwrap().unwrap();
    assert_eq!(validity.to_string(), "($.v and $.w)");
}

fn names(options: RegexOptions, pattern: &str) -> Vec<&'static str> {
    let all = [
        Some("alpha"),
        Some("Alphabet"),
        Some("beta"),
        Some("gamma"),
        Some("alphanumeric"),
        None,
    ];
    let result = run_regex(&nullable_strings(&all), pattern, options).unwrap();
    let mut kept: Vec<&'static str> = (0..all.len())
        .filter(|&i| result.row(i) == Some(true))
        .map(|i| all[i].unwrap())
        .collect();
    kept.sort();
    kept
}

#[test]
fn regex_match_case_sensitive() {
    let opts = RegexOptions { negated: false, case_insensitive: false };
    assert_eq!(names(opts, "^alpha"), ["alpha", "alphanumeric"]);
}

#[test]
fn regex_match_case_insensitive() {
    let opts = RegexOptions { negated: false, case_insensitive: true };
    assert_eq!(names(opts, "^alpha"), ["Alphabet", "alpha", "alphanumeric"]);
}

#[test]
fn regex_not_match_case_sensitive() {
    let opts = RegexOptions { negated: true, case_insensitive: false };
    assert_eq!(names(opts, "^alpha"), ["Alphabet", "beta", "gamma"]);
}

#[test]
fn regex_not_match_case_insensitive() {
    let opts = RegexOptions { negated: true, case_insensitive: true };
    assert_eq!(names(opts, "^alpha"), ["beta", "gamma"]);
}

#[test]
fn regex_match_with_alternation() {
    let opts = RegexOptions { negated: false, case_insensitive: false };
    assert_eq!(names(opts, "^(beta|gamma)$"), ["beta", "gamma"]);
}
