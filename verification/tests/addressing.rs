use vshell::address::copy_words;
use vshell::command::Edit;
use vshell::model::CommandWithoutOutput;

fn line(input: &str, cursor_position: u64) -> CommandWithoutOutput {
    CommandWithoutOutput {
        cursor_position,
        input: input.to_string(),
    }
}

#[test]
fn delete_second_word() {
    assert_eq!(line("foo bar baz", 0).delete_word(1), line("foo  baz", 4));
}

#[test]
fn delete_first_and_last_word() {
    assert_eq!(line("foo bar baz", 7).delete_word(0), line(" bar baz", 0));
    assert_eq!(line("foo bar baz", 0).delete_word(2), line("foo bar ", 8));
}

#[test]
fn delete_missing_word_changes_nothing() {
    assert_eq!(line("foo bar baz", 5).delete_word(3), line("foo bar baz", 5));
    assert_eq!(line("", 0).delete_word(0), line("", 0));
    assert_eq!(line("   ", 1).delete_word(0), line("   ", 1));
}

#[test]
fn delete_counts_tabs_and_line_breaks() {
    assert_eq!(line("a\tb\r\nc  d", 0).delete_word(2), line("a\tb\r\n  d", 5));
    assert_eq!(line("é ü", 0).delete_word(1), line("é ", 3));
}

#[test]
fn delete_range_of_words() {
    assert_eq!(line("a b c d e", 0).delete_words(1, 3), line("a  e", 2));
    assert_eq!(line("a b c d e", 0).delete_words(0, 4), line("", 0));
    assert_eq!(line("a b c d e", 0).delete_words(2, 2), line("a b  d e", 4));
}

#[test]
fn delete_range_needs_both_ends() {
    assert_eq!(line("a b c", 1).delete_words(2, 1), line("a b c", 1));
    assert_eq!(line("a b c", 1).delete_words(1, 3), line("a b c", 1));
    assert_eq!(line("a b c", 1).delete_words(5, 7), line("a b c", 1));
}

#[test]
fn edit_by_hints() {
    assert_eq!(
        line("foo bar baz", 0).edit(&Edit::Single("b".to_string())),
        line("foo  baz", 4)
    );
    assert_eq!(
        line("foo bar baz", 0).edit(&Edit::Range("a".to_string(), "b".to_string())),
        line(" baz", 0)
    );
    assert_eq!(
        line("foo bar baz", 2).edit(&Edit::Single("B".to_string())),
        line("foo bar baz", 2)
    );
    assert_eq!(
        line("foo bar baz", 2).edit(&Edit::Range("a".to_string(), "B".to_string())),
        line("foo bar baz", 2)
    );
    assert_eq!(
        line("foo bar baz", 2).edit(&Edit::Single("zzzzzzzzzzzz".to_string())),
        line("foo bar baz", 2)
    );
    assert_eq!(
        line("foo bar baz", 2).edit(&Edit::Single("ab".to_string())),
        line("foo  baz", 4)
    );
}

#[test]
fn jump_before_and_after_words() {
    assert_eq!(line("foo bar baz", 0).jump_before(1), line("foo bar baz", 4));
    assert_eq!(line("foo bar baz", 0).jump_after(1), line("foo bar baz", 7));
    assert_eq!(line("foo bar baz", 5).jump_before(0), line("foo bar baz", 0));
    assert_eq!(line("foo bar baz", 5).jump_after(0), line("foo bar baz", 3));
    assert_eq!(line("  foo", 0).jump_before(0), line("  foo", 2));
}

#[test]
fn jump_to_a_missing_word_goes_to_the_end() {
    assert_eq!(line("foo bar baz ", 0).jump_before(3), line("foo bar baz ", 12));
    assert_eq!(line("foo bar baz ", 0).jump_after(9), line("foo bar baz ", 12));
}

#[test]
fn jump_by_hint() {
    assert_eq!(line("foo bar", 0).jump("", false), line("foo bar", 7));
    assert_eq!(line("foo bar", 0).jump("", true), line("foo bar", 7));
    assert_eq!(line("foo bar", 0).jump("b", false), line("foo bar", 4));
    assert_eq!(line("foo bar", 0).jump("b", true), line("foo bar", 7));
    assert_eq!(line("foo bar", 2).jump("B", true), line("foo bar", 2));
}

#[test]
fn copy_single_word_with_the_gaps_before_it() {
    assert_eq!(copy_words("foo bar baz", 0, 0), "foo");
    assert_eq!(copy_words("foo bar baz", 1, 1), " bar");
    assert_eq!(copy_words("foo bar\n\tbaz", 2, 2), " \n\tbaz");
    assert_eq!(copy_words("  foo", 0, 0), "  foo");
}

#[test]
fn copy_range_of_words() {
    assert_eq!(copy_words("a b c d", 1, 2), " b c");
    assert_eq!(copy_words("a b c d", 0, 3), "a b c d");
    assert_eq!(copy_words("a b c d ", 0, 3), "a b c d");
}

#[test]
fn copy_past_the_last_word_takes_the_gaps() {
    assert_eq!(copy_words("a b ", 5, 5), "  ");
    assert_eq!(copy_words("a b ", 1, 5), " b ");
    assert_eq!(copy_words("", 0, 0), "");
}
