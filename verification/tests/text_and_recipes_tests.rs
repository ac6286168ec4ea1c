use task_runner::digits::{i64_string, pad2_string, u64_string};
use task_runner::recipes::get_available;
use task_runner::store::JobError;
use task_runner::text::{split_lines, tokenize, trim_str};

#[test]
fn numbers_render_in_decimal() {
    assert_eq!(u64_string(0), "0");
    assert_eq!(u64_string(127), "127");
    assert_eq!(u64_string(1000), "1000");
    assert_eq!(i64_string(-42), "-42");
    assert_eq!(i64_string(7), "7");
    assert_eq!(pad2_string(3), "03");
    assert_eq!(pad2_string(10), "10");
}

#[test]
fn commands_tokenize_on_whitespace() {
    assert_eq!(tokenize("compile release"), vec!["compile", "release"]);
    assert_eq!(tokenize("  a \t b  "), vec!["a", "b"]);
    assert_eq!(tokenize("solo"), vec!["solo"]);
    assert_eq!(tokenize(""), Vec::<String>::new());
    assert_eq!(tokenize("   "), Vec::<String>::new());
}

#[test]
fn texts_split_into_lines() {
    assert_eq!(split_lines("a\nb"), vec!["a", "b"]);
    assert_eq!(split_lines("a\nb\n"), vec!["a", "b"]);
    assert_eq!(split_lines("a\n\nb"), vec!["a", "", "b"]);
    assert_eq!(split_lines(""), Vec::<String>::new());
    assert_eq!(split_lines("\n"), vec![""]);
}

#[test]
fn trimming_strips_both_ends() {
    assert_eq!(trim_str("  build \r\n"), "build");
    assert_eq!(trim_str("build"), "build");
    assert_eq!(trim_str(" \t "), "");
    assert_eq!(trim_str(""), "");
}

#[test]
fn trimming_covers_unicode_whitespace() {
    // no-break space, ogham space mark, em space, ideographic space
    assert_eq!(trim_str("\u{a0}build\u{a0}"), "build");
    assert_eq!(trim_str("\u{1680}\u{2003}build\u{3000}"), "build");
    // the same notion the standard library trims by
    let text = "\u{a0} mixed \u{2028}";
    assert_eq!(trim_str(text), text.trim());
}

#[test]
fn recipe_listing_drops_the_header_and_trims() {
    let text = "Available recipes:\n    build\n    test-all # comment\n";
    let recipes = get_available(true, text).unwrap();
    assert_eq!(recipes, vec!["build", "test-all # comment"]);
}

#[test]
fn empty_recipe_listing_yields_nothing() {
    assert_eq!(get_available(true, "").unwrap(), Vec::<String>::new());
    assert_eq!(get_available(true, "Available recipes:\n").unwrap(), Vec::<String>::new());
}

#[test]
fn failed_introspection_is_an_execution_error() {
    let r = get_available(false, "whatever");
    assert_eq!(r.unwrap_err(), JobError::Execution);
}
