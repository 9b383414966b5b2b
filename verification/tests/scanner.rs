use cargo_select::get_tests::get_tests_from_file;
use cargo_select::get_tests::is_rust_source_or_dir;
use cargo_select::select::Target;
use cargo_select::strings::contains_str;
use cargo_select::strings::ends_with_str;
use cargo_select::strings::lex_leq_str;
use cargo_select::strings::str_eq;
use cargo_select::strings::trim_str;

fn lines(ls: &[&str]) -> Vec<String> {
    ls.iter().map(|l| l.to_string()).collect()
}

fn test_names(ts: &[Target]) -> Vec<String> {
    ts.iter()
        .map(|t| match t {
            Target::Test(tt) => tt.name.clone(),
            _ => panic!("scanner only emits test targets"),
        })
        .collect()
}

#[test]
fn finds_plain_and_pub_test_functions() {
    let src = lines(&[
        "use something;",
        "",
        "#[test]",
        "fn first_case() {",
        "    assert!(true);",
        "}",
        "",
        "  #[test]  ",
        "pub fn second_case() {",
        "}",
        "fn not_a_test() {}",
    ]);
    let ts = get_tests_from_file("src/lib.rs", &src);
    assert_eq!(test_names(&ts), vec!["first_case", "second_case"]);
    match &ts[0] {
        Target::Test(tt) => assert_eq!(tt.path, "src/lib.rs"),
        _ => unreachable!(),
    }
}

#[test]
fn marker_disarms_after_one_line() {
    // the line after the marker is not a signature: the scanner disarms
    // and the later function is not reported
    let src = lines(&["#[test]", "// a comment", "fn late() {}"]);
    let ts = get_tests_from_file("f.rs", &src);
    assert_eq!(ts.len(), 0);
}

#[test]
fn marker_rearms_on_a_second_marker() {
    let src = lines(&["#[test]", "#[test]", "fn once() {}"]);
    let ts = get_tests_from_file("f.rs", &src);
    assert_eq!(test_names(&ts), vec!["once"]);
}

#[test]
fn signature_without_parenthesis_loses_its_last_character() {
    // with no parameter list on the line, the name is cut one character
    // short of the line's end
    let src = lines(&["#[test]", "fn baz"]);
    let ts = get_tests_from_file("f.rs", &src);
    assert_eq!(test_names(&ts), vec!["ba"]);
}

#[test]
fn keyword_alone_yields_an_empty_name() {
    // a signature split across lines is never an error; the bare keyword
    // line leaves nothing behind it, so the extracted name is empty
    let src = lines(&["#[test]", "fn", "split() {}"]);
    let ts = get_tests_from_file("f.rs", &src);
    assert_eq!(test_names(&ts), vec![""]);
}

#[test]
fn rust_sources_and_non_build_dirs_are_visited() {
    assert!(is_rust_source_or_dir("main.rs", false));
    assert!(is_rust_source_or_dir("main.rs", true));
    assert!(is_rust_source_or_dir("src", true));
    assert!(!is_rust_source_or_dir("target", true));
    assert!(!is_rust_source_or_dir("target", false));
    assert!(!is_rust_source_or_dir("notes.txt", false));
}

#[test]
fn text_primitives_behave() {
    assert!(str_eq("abc", "abc"));
    assert!(!str_eq("abc", "abd"));
    assert!(ends_with_str("foo.rs", ".rs"));
    assert!(!ends_with_str("rs", ".rs"));
    assert_eq!(trim_str("  a b\t"), "a b");
    assert_eq!(trim_str(""), "");
    assert_eq!(trim_str(" \t "), "");
    assert!(contains_str("hello", "ell"));
    assert!(contains_str("hello", ""));
    assert!(!contains_str("hello", "xyz"));
    assert!(lex_leq_str("abc", "abd"));
    assert!(lex_leq_str("ab", "abc"));
    assert!(!lex_leq_str("abc", "ab"));
    assert!(lex_leq_str("abc", "abc"));
    assert!(!lex_leq_str("b", "abc"));
}
