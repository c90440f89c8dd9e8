use about_features::order::sort_names_exec;
use about_features::scanner::is_scannable_path;
use about_features::scanner::scan_source;

fn names(items: &[&str]) -> Vec<String> {
    items.iter().map(|s| s.to_string()).collect()
}

#[test]
fn scan_finds_plain_pattern() {
    let text = "#[cfg(feature = \"alpha\")]\nfn f() {}\n";
    assert_eq!(scan_source(text), names(&["alpha"]));
}

#[test]
fn scan_is_whitespace_tolerant() {
    let text = "feature=\"tight\" feature   =   \"spaced\" feature =\n\"wrapped\"";
    assert_eq!(scan_source(text), names(&["spaced", "tight", "wrapped"]));
}

#[test]
fn scan_deduplicates_and_sorts() {
    let text = "feature = \"zeta\" feature = \"alpha\" feature = \"zeta\"";
    assert_eq!(scan_source(text), names(&["alpha", "zeta"]));
}

#[test]
fn scan_ignores_empty_and_unterminated_names() {
    let text = "feature = \"\" and feature = \"open";
    assert_eq!(scan_source(text), Vec::<String>::new());
}

#[test]
fn scan_requires_the_exact_word() {
    let text = "misfeature = \"no\" featur = \"no\"";
    // `misfeature = "no"` still contains `feature = "no"` as a substring,
    // which the purely textual pattern does capture.
    assert_eq!(scan_source(text), names(&["no"]));
    assert_eq!(scan_source("featur = \"x\""), Vec::<String>::new());
}

#[test]
fn scan_empty_text() {
    assert_eq!(scan_source(""), Vec::<String>::new());
}

#[test]
fn sort_names_sorts_and_deduplicates() {
    let input = names(&["beta", "alpha", "beta", "", "gamma", "alpha"]);
    assert_eq!(sort_names_exec(&input), names(&["", "alpha", "beta", "gamma"]));
}

#[test]
fn sort_names_is_lexicographic() {
    let input = names(&["b", "a-long", "a", "ab"]);
    assert_eq!(sort_names_exec(&input), names(&["a", "a-long", "ab", "b"]));
}

#[test]
fn path_filter_accepts_source_files_only() {
    assert!(is_scannable_path("src/lib.rs"));
    assert!(is_scannable_path("a/b/c/mod.rs"));
    assert!(!is_scannable_path("src/lib.rs.bak"));
    assert!(!is_scannable_path("README.md"));
    assert!(!is_scannable_path(".rs"));
    assert!(!is_scannable_path("src/.rs"));
    assert!(is_scannable_path("..rs"));
}

#[test]
fn path_filter_skips_build_output() {
    assert!(!is_scannable_path("target/debug/build/out.rs"));
    assert!(!is_scannable_path("member/target/gen.rs"));
    assert!(is_scannable_path("retarget/file.rs"));
    assert!(is_scannable_path("src/targets/file.rs"));
}
