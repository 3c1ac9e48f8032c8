use vshell::model::CommandWithoutOutput;
use vshell::replace::{find, replace_every, replace_once};

fn line(input: &str, cursor_position: u64) -> CommandWithoutOutput {
    CommandWithoutOutput {
        cursor_position,
        input: input.to_string(),
    }
}

fn chars(s: &str) -> Vec<char> {
    s.chars().collect()
}

#[test]
fn replace_single_prefers_the_suffix() {
    assert_eq!(line("abcabc", 3).replace_single("abc", "xy"), line("abcxy", 3));
}

#[test]
fn replace_single_falls_back_to_the_prefix() {
    assert_eq!(line("abcabd", 3).replace_single("abc", "xy"), line("xyabd", 2));
    assert_eq!(line("abc", 3).replace_single("b", "long"), line("alongc", 6));
    assert_eq!(line("abc", 3).replace_single("abc", ""), line("", 0));
}

#[test]
fn replace_single_across_the_cursor_goes_to_the_end() {
    assert_eq!(line("xabcx", 2).replace_single("abc", "12"), line("x12x", 4));
}

#[test]
fn replace_single_without_a_match_changes_nothing() {
    assert_eq!(line("abc", 1).replace_single("zz", "y"), line("abc", 1));
}

#[test]
fn replace_single_off_a_boundary_changes_nothing() {
    assert_eq!(line("éa", 1).replace_single("a", "b"), line("éa", 1));
    assert_eq!(line("ab", 5).replace_single("a", "b"), line("ab", 5));
}

#[test]
fn replace_single_with_an_empty_pattern_inserts_at_the_cursor() {
    assert_eq!(line("abc", 1).replace_single("", "-"), line("a-bc", 1));
}

#[test]
fn replace_global_replaces_all_and_goes_to_the_end() {
    assert_eq!(line("a.b.c", 0).replace_global(".", "::"), line("a::b::c", 7));
    assert_eq!(line("aaa", 1).replace_global("aa", "b"), line("ba", 2));
    assert_eq!(line("abc", 1).replace_global("x", "y"), line("abc", 3));
    assert_eq!(line("ab", 0).replace_global("", "-"), line("-a-b-", 5));
    assert_eq!(line("", 0).replace_global("", "x"), line("x", 1));
}

#[test]
fn find_gives_the_first_match() {
    assert_eq!(find(&chars("abcabc"), &chars("bc"), 0), Some(1));
    assert_eq!(find(&chars("abcabc"), &chars("bc"), 2), Some(4));
    assert_eq!(find(&chars("abcabc"), &chars("bc"), 5), None);
    assert_eq!(find(&chars("abc"), &chars(""), 3), Some(3));
    assert_eq!(find(&chars("abc"), &chars(""), 4), None);
    assert_eq!(find(&chars("ab"), &chars("abc"), 0), None);
    assert_eq!(find(&chars("ab"), &chars("abc"), usize::MAX), None);
}

#[test]
fn replace_once_and_every() {
    assert_eq!(
        replace_once(&chars("aXbXc"), &chars("X"), &chars("--")),
        Some(chars("a--bXc"))
    );
    assert_eq!(replace_once(&chars("abc"), &chars("X"), &chars("--")), None);
    assert_eq!(
        replace_every(&chars("aXbXc"), &chars("X"), &chars("--")),
        chars("a--b--c")
    );
    assert_eq!(replace_every(&chars("XX"), &chars("X"), &chars("")), chars(""));
}
