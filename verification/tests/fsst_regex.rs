use vortex_regex::array::BoolArray;
use vortex_regex::array::PatternArray;
use vortex_regex::array::Validity;
use vortex_regex::array::VarBinViewArray;
use vortex_regex::compressed::compiled::to_words;
use vortex_regex::compressed::kernel::FSSTArray;
use vortex_regex::compressed::kernel::FSST;
use vortex_regex::compressed::matcher::FsstMatcher;
use vortex_regex::compressed::regex_dfa::RegexFsstDfa;
use vortex_regex::compressed::symbols::decompress_codes;
use vortex_regex::compressed::symbols::ESCAPE_CODE;
use vortex_regex::dtype::DType;
use vortex_regex::dtype::Nullability;
use vortex_regex::kernel::RegexExecuteAdaptor;
use vortex_regex::kernel::RegexKernel;
use vortex_regex::kernel::RegexParent;
use vortex_regex::options::RegexOptions;
use vortex_regex::scalar::Scalar;
use vortex_regex::scalar_fn::Regex;

fn make_fsst(strings: &[Option<&str>], nullability: Nullability) -> FSSTArray {
    let plain: Vec<&[u8]> = strings.iter().flatten().map(|s| s.as_bytes()).collect();
    let compressor = fsst::Compressor::train(&plain);
    let mut offsets = vec![0usize];
    let mut codes: Vec<u8> = Vec::new();
    for s in strings {
        if let Some(s) = s {
            codes.extend(compressor.compress(s.as_bytes()));
        }
        offsets.push(codes.len());
    }
    FSSTArray {
        dtype: DType::Utf8(nullability),
        symbols: compressor.symbol_table().to_vec(),
        symbol_lengths: compressor.symbol_lengths().to_vec(),
        offsets,
        codes,
        validity: match nullability {
            Nullability::NonNullable => Validity::NonNullable,
            Nullability::Nullable => Validity::Array(strings.iter().map(|s| s.is_some()).collect()),
        },
    }
}

fn decompress(array: &FSSTArray) -> VarBinViewArray {
    let compressor = fsst::Compressor::rebuild_from(&array.symbols, &array.symbol_lengths);
    let decompressor = compressor.decompressor();
    VarBinViewArray {
        dtype: array.dtype,
        bytes: (0..array.len())
            .map(|i| decompressor.decompress(&array.codes[array.offsets[i]..array.offsets[i + 1]]))
            .collect(),
        validity: array.validity.clone(),
    }
}

fn constant(pattern: &str, len: usize) -> PatternArray {
    PatternArray::Constant { value: Scalar::utf8(pattern), len }
}

/// Matches the compressed array, or decompresses it first where that is not
/// possible.
fn run_regex(array: &FSSTArray, pattern: &str, options: RegexOptions) -> BoolArray {
    let parent = RegexParent { options, pattern: constant(pattern, array.len()) };
    let adaptor = RegexExecuteAdaptor(FSST);
    match adaptor.execute_parent(array, &parent, 0).unwrap() {
        Some(result) => result,
        None => Regex.execute(&options, &decompress(array), &parent.pattern).unwrap(),
    }
}

fn rows(array: &BoolArray) -> Vec<Option<bool>> {
    (0..array.bits.len()).map(|i| array.row(i)).collect()
}

fn bools(array: &BoolArray) -> Vec<bool> {
    rows(array).into_iter().map(|b| b.unwrap()).collect()
}

#[test]
fn fsst_regex_anchored() {
    let fsst = make_fsst(
        &[
            Some("http://example.com"),
            Some("http://test.org"),
            Some("ftp://files.net"),
            Some("http://vortex.dev"),
            Some("ssh://server.io"),
        ],
        Nullability::NonNullable,
    );
    let result = run_regex(&fsst, "^http://", RegexOptions::default());
    assert_eq!(bools(&result), [true, true, false, true, false]);
}

#[test]
fn fsst_regex_contains_alternation() {
    let fsst = make_fsst(
        &[Some("hello world"), Some("say hello"), Some("goodbye"), Some("worldview")],
        Nullability::NonNullable,
    );
    let result = run_regex(&fsst, "(hello|world)", RegexOptions::default());
    assert_eq!(bools(&result), [true, true, false, true]);
}

#[test]
fn fsst_regex_case_insensitive_negated() {
    let fsst = make_fsst(
        &[Some("AbC"), Some("xyz"), Some("abZ"), Some("abcdef")],
        Nullability::NonNullable,
    );
    let opts = RegexOptions { negated: true, case_insensitive: true };
    let result = run_regex(&fsst, "^ab", opts);
    assert_eq!(bools(&result), [false, true, false, false]);
}

#[test]
fn fsst_regex_anchored_prefix_kernel_handles() {
    let fsst = make_fsst(&[Some("http://a.com"), Some("ftp://b.com")], Nullability::NonNullable);
    let pattern = constant("^http://", fsst.len());
    let result = <FSST as RegexKernel>::regex(&fsst, &pattern, RegexOptions::default()).unwrap();
    assert!(result.is_some(), "FSST RegexKernel should handle ^prefix");
    assert_eq!(bools(&result.unwrap()), [true, false]);
}

#[test]
fn fsst_regex_contains_literal_kernel_handles() {
    let fsst = make_fsst(&[Some("hello world"), Some("goodbye")], Nullability::NonNullable);
    let pattern = constant("world", fsst.len());
    let result = <FSST as RegexKernel>::regex(&fsst, &pattern, RegexOptions::default()).unwrap();
    assert!(result.is_some(), "FSST RegexKernel should handle literal contains");
    assert_eq!(bools(&result.unwrap()), [true, false]);
}

#[test]
fn fsst_regex_falls_back_for_metacharacters() {
    let fsst = make_fsst(&[Some("abc"), Some("def")], Nullability::NonNullable);
    for pattern in ["a.c", "(a|b)c", "^a$", "abc$"] {
        let pat = constant(pattern, fsst.len());
        let result = <FSST as RegexKernel>::regex(&fsst, &pat, RegexOptions::default()).unwrap();
        assert!(result.is_none(), "pattern `{pattern}` should fall back to canonical");
    }
    // Case-insensitive also falls back.
    let pat = constant("abc", fsst.len());
    let opts = RegexOptions { negated: false, case_insensitive: true };
    let result = <FSST as RegexKernel>::regex(&fsst, &pat, opts).unwrap();
    assert!(result.is_none(), "case-insensitive should fall back to canonical");
}

#[test]
fn fsst_regex_with_nulls() {
    let fsst = make_fsst(
        &[Some("hello"), None, Some("help"), None, Some("goodbye")],
        Nullability::Nullable,
    );
    let result = run_regex(&fsst, "^hel", RegexOptions::default());
    assert_eq!(rows(&result), [Some(true), None, Some(true), None, Some(false)]);
}

#[test]
fn kernel_is_for_the_text_operand_and_constant_patterns() {
    let fsst = make_fsst(&[Some("abc")], Nullability::NonNullable);
    let opts = RegexOptions::default();
    let adaptor = RegexExecuteAdaptor(FSST);
    let parent = RegexParent { options: opts, pattern: constant("^ab", 1) };
    assert!(adaptor.execute_parent(&fsst, &parent, 0).unwrap().is_some());
    assert!(adaptor.execute_parent(&fsst, &parent, 1).unwrap().is_none());
    let per_row = PatternArray::PerRow(decompress(&fsst));
    assert!(<FSST as RegexKernel>::regex(&fsst, &per_row, opts).unwrap().is_none());
    let null = PatternArray::Constant {
        value: Scalar::Null(DType::Utf8(Nullability::Nullable)),
        len: 1,
    };
    assert!(<FSST as RegexKernel>::regex(&fsst, &null, opts).unwrap().is_none());
}

#[test]
fn compressed_match_agrees_with_default_match() {
    let strings: Vec<Option<&str>> = vec![
        Some(""),
        Some("a"),
        Some("aab"),
        Some("aaab"),
        Some("größe"),
        Some("groß"),
        Some("日本語 aab"),
        None,
        Some("abababac"),
    ];
    let fsst = make_fsst(&strings, Nullability::Nullable);
    for pattern in ["", "^", "a", "^a", "aab", "^aab", "ö", "^gr", "ß", "本", "ababac", "zz"] {
        for negated in [false, true] {
            let opts = RegexOptions { negated, case_insensitive: false };
            let pat = constant(pattern, fsst.len());
            let by_codes = <FSST as RegexKernel>::regex(&fsst, &pat, opts).unwrap().unwrap();
            let by_text = Regex.execute(&opts, &decompress(&fsst), &pat).unwrap();
            assert_eq!(rows(&by_codes), rows(&by_text));
        }
    }
}

#[test]
fn nullable_pattern_makes_compressed_result_nullable() {
    let fsst = make_fsst(&[Some("abc")], Nullability::NonNullable);
    let value = Scalar::Utf8("^ab".to_string(), Nullability::Nullable);
    let pat = PatternArray::Constant { value, len: 1 };
    let opts = RegexOptions::default();
    let result = <FSST as RegexKernel>::regex(&fsst, &pat, opts).unwrap().unwrap();
    assert_eq!(result.validity, Validity::AllValid);
}

#[test]
fn literals_that_are_too_long_fall_back() {
    let fsst = make_fsst(&[Some("abc")], Nullability::NonNullable);
    let handled = |pattern: &str| {
        <FSST as RegexKernel>::regex(&fsst, &constant(pattern, 1), RegexOptions::default())
            .unwrap()
            .is_some()
    };
    let longest = "a".repeat(FsstMatcher::MAX_PREFIX_LEN);
    assert!(handled(&format!("^{longest}")));
    assert!(!handled(&format!("^{longest}a")));
    let longest = "a".repeat(FsstMatcher::MAX_NEEDLE_LEN);
    assert!(handled(&longest));
    assert!(!handled(&format!("{longest}a")));
}

#[test]
fn escape_code_is_that_of_the_compressor() {
    assert_eq!(ESCAPE_CODE, fsst::ESCAPE_CODE);
}

#[test]
fn decompression_is_that_of_the_compressor() {
    let strings = ["hello world", "worldview", "", "日本 hello", "\u{7f}é"];
    let options: Vec<Option<&str>> = strings.iter().map(|s| Some(*s)).collect();
    let array = make_fsst(&options, Nullability::NonNullable);
    let words = to_words(&array.symbols);
    for (i, expected) in strings.iter().enumerate() {
        let codes = &array.codes[array.offsets[i]..array.offsets[i + 1]];
        let bytes = decompress_codes(&words, &array.symbol_lengths, codes);
        assert_eq!(bytes, expected.as_bytes());
        assert_eq!(bytes, decompress(&array).bytes[i]);
    }
}

fn dfa(array: &FSSTArray, pattern: &str, case_insensitive: bool) -> Option<RegexFsstDfa> {
    RegexFsstDfa::try_new(&array.symbols, &array.symbol_lengths, pattern, case_insensitive).unwrap()
}

fn dfa_hits(array: &FSSTArray, pattern: &str, case_insensitive: bool) -> Vec<bool> {
    let dfa = dfa(array, pattern, case_insensitive).unwrap();
    (0..array.len())
        .map(|i| dfa.matches(&array.codes[array.offsets[i]..array.offsets[i + 1]]))
        .collect()
}

#[test]
fn regex_dfa_agrees_with_default_match() {
    let strings = ["hello world", "say hello", "goodbye", "worldview", "", "HELLO", "hel", "日本"];
    let options: Vec<Option<&str>> = strings.iter().map(|s| Some(*s)).collect();
    let array = make_fsst(&options, Nullability::NonNullable);
    let plain = decompress(&array);
    for pattern in [
        "^hello", "hello$", "^hello world$", "(hello|world)", "^$", "l{2}", "[a-f]+y", "o.*o", "",
        "^hel", "日.", "(?i)HELLO", r"(?-u:\b)hel", "(?-u)w", "(?m)^w|d$", r"\d*$", "é?",
    ] {
        for case_insensitive in [false, true] {
            let opts = RegexOptions { negated: false, case_insensitive };
            let pat = constant(pattern, array.len());
            let expected = bools(&Regex.execute(&opts, &plain, &pat).unwrap());
            assert_eq!(dfa_hits(&array, pattern, case_insensitive), expected);
        }
    }
}

#[test]
fn regex_dfa_finds_no_match_inside_of_a_character() {
    let strings = ["aéa", "éa", "é", "a", "", "ab", "日本", "a日本a", "é foo", "éfoo", "foo", "foobar"];
    let options: Vec<Option<&str>> = strings.iter().map(|s| Some(*s)).collect();
    let array = make_fsst(&options, Nullability::NonNullable);
    let plain = decompress(&array);
    for pattern in [
        r"(?-u:\B)", r"(?-u:\bfoo\b)", r"(?-u:\b{start-half}\b{end-half})", r"(?-u:\b{start}f)",
        r"(?-u:\<foo\>)", r"(?-u:\B)|foo", r"a(?-u:\B)", r"\\B", r"(?x-u: \b{ start-half }a)",
    ] {
        for case_insensitive in [false, true] {
            let opts = RegexOptions { negated: false, case_insensitive };
            let pat = constant(pattern, array.len());
            let expected = bools(&Regex.execute(&opts, &plain, &pat).unwrap());
            assert_eq!(dfa_hits(&array, pattern, case_insensitive), expected, "{pattern}");
        }
    }
    // Every place between the characters of the first is at an edge of a word.
    let hits = dfa_hits(&array, r"(?-u:\B)", false);
    assert_eq!(&hits[..6], [false, true, true, false, true, true]);
    let hits = dfa_hits(&array, r"(?-u:\bfoo\b)", false);
    assert_eq!(&hits[8..], [true, true, true, false]);
}

#[test]
fn regex_dfa_takes_bytes_that_are_no_text_as_they_are() {
    let dfa = RegexFsstDfa::try_new(&[], &[], r"(?-u:\B)", false).unwrap().unwrap();
    assert!(dfa.matches(&[ESCAPE_CODE, b'a', ESCAPE_CODE, 0xff, ESCAPE_CODE, 0xff]));
    assert!(!dfa.matches(&[ESCAPE_CODE, b'a']));
}

#[test]
fn regex_dfa_rejects_what_it_cannot_build() {
    let array = make_fsst(&[Some("abc")], Nullability::NonNullable);
    assert!(dfa(&array, "(", false).is_none());
    // Unicode word boundaries are not supported.
    assert!(dfa(&array, r"\bab", false).is_none());
    // More states than are followed.
    assert!(dfa(&array, "[ab]*a[ab]{12}$", false).is_none());
    assert!(dfa(&array, "^ab", false).is_some());
}

#[test]
fn regex_dfa_reads_escapes_and_symbols() {
    let symbols = [fsst::Symbol::from_slice(b"ab\0\0\0\0\0\0")];
    let lengths = [2u8];
    let dfa = RegexFsstDfa::try_new(&symbols, &lengths, "^abc$", false).unwrap().unwrap();
    assert!(dfa.matches(&[0, ESCAPE_CODE, b'c']));
    assert!(dfa.matches(&[ESCAPE_CODE, b'a', ESCAPE_CODE, b'b', ESCAPE_CODE, b'c']));
    assert!(!dfa.matches(&[0]));
    assert!(!dfa.matches(&[ESCAPE_CODE, b'c', 0]));
    // An escape at the very end stands for nothing.
    assert!(dfa.matches(&[0, ESCAPE_CODE, b'c', ESCAPE_CODE]));
    let dfa = RegexFsstDfa::try_new(&symbols, &lengths, "ba", false).unwrap().unwrap();
    assert!(dfa.matches(&[0, 0]));
    assert!(!dfa.matches(&[0]));
}
