use vshell::directory::{sort_by_name, starts_with, File};
use vshell::model::CommandWithoutOutput;
use vshell::replace::{replace_every, replace_once};
use vshell::session::{ends_with_char, without_last};
use vshell::text::{chars_of, len_of, position, split_at_byte, text_of, width_of};
use vshell::{Command, CommandError};

const TEXTS: [&str; 12] = [
    "",
    "a",
    "abc",
    "aaa",
    "aaaa",
    "abcabc",
    "a b  c",
    "é",
    "aéb",
    "日本語 text",
    "x😀y😀",
    "~/~",
];

const PATTERNS: [&str; 9] = ["", "a", "aa", "abc", "b", "é", "😀", "~", "zz"];

fn chars(s: &str) -> Vec<char> {
    s.chars().collect()
}

fn line(input: &str, cursor_position: u64) -> CommandWithoutOutput {
    CommandWithoutOutput {
        cursor_position,
        input: input.to_string(),
    }
}

#[test]
fn replacing_agrees_with_str_replace() {
    for text in TEXTS {
        for pattern in PATTERNS {
            for to in ["", "-", "aa", "é"] {
                let all: String = replace_every(&chars(text), &chars(pattern), &chars(to))
                    .into_iter()
                    .collect();
                assert_eq!(all, text.replace(pattern, to), "{text:?} {pattern:?} {to:?}");
                let once: String = match replace_once(&chars(text), &chars(pattern), &chars(to)) {
                    Some(v) => v.into_iter().collect(),
                    None => text.to_string(),
                };
                assert_eq!(once, text.replacen(pattern, to, 1), "{text:?} {pattern:?} {to:?}");
                assert_eq!(
                    replace_once(&chars(text), &chars(pattern), &chars(to)).is_some(),
                    text.contains(pattern)
                );
            }
        }
    }
}

#[test]
fn inserting_agrees_with_string_insert() {
    for text in TEXTS {
        for cursor in 0..=text.len() + 1 {
            for c in ['x', 'é', '😀'] {
                let expected = if text.is_char_boundary(cursor) {
                    let mut input = text.to_string();
                    input.insert(cursor, c);
                    line(&input, cursor as u64 + 1)
                } else {
                    line(text, cursor as u64)
                };
                assert_eq!(line(text, cursor as u64).insert_char(c), expected);
            }
        }
    }
}

#[test]
fn backspace_agrees_with_string_remove() {
    for text in TEXTS {
        for cursor in 0..=text.len() + 2 {
            let removable =
                cursor > 0 && cursor - 1 < text.len() && text.is_char_boundary(cursor - 1);
            let expected = if removable {
                let mut input = text.to_string();
                input.remove(cursor - 1);
                line(&input, cursor as u64 - 1)
            } else {
                line(text, cursor as u64)
            };
            assert_eq!(line(text, cursor as u64).backspace(), expected, "{text:?} {cursor}");
        }
    }
}

#[test]
fn splicing_agrees_with_split_at() {
    for text in TEXTS {
        for cursor in 0..=text.len() + 1 {
            for pasted in ["", "in", "é😀"] {
                let expected = if text.is_char_boundary(cursor) {
                    let (first, second) = text.split_at(cursor);
                    line(
                        &format!("{}{}{}", first, pasted, second),
                        (cursor + pasted.len()) as u64,
                    )
                } else {
                    line(text, cursor as u64)
                };
                assert_eq!(line(text, cursor as u64).splice(pasted), expected);
                assert_eq!(
                    split_at_byte(text, cursor),
                    if text.is_char_boundary(cursor) {
                        Some(text.split_at(cursor))
                    } else {
                        None
                    }
                );
            }
        }
    }
}

fn replaced_by_the_book(text: &str, cursor: usize, from: &str, to: &str) -> (u64, String) {
    let (first, last) = text.split_at(cursor);
    if last.contains(from) {
        (cursor as u64, format!("{}{}", first, last.replacen(from, to, 1)))
    } else if first.contains(from) {
        let difference = to.len() as i64 - from.len() as i64;
        (
            (cursor as i64 + difference) as u64,
            format!("{}{}", first.replacen(from, to, 1), last),
        )
    } else if text.contains(from) {
        let replaced = text.replacen(from, to, 1);
        (replaced.len() as u64, replaced)
    } else {
        (cursor as u64, text.to_string())
    }
}

#[test]
fn replace_single_agrees_with_the_string_functions() {
    for text in TEXTS {
        for cursor in 0..=text.len() {
            if !text.is_char_boundary(cursor) {
                continue;
            }
            for from in PATTERNS {
                for to in ["", "-", "long one"] {
                    let (position, input) = replaced_by_the_book(text, cursor, from, to);
                    assert_eq!(
                        line(text, cursor as u64).replace_single(from, to),
                        line(&input, position),
                        "{text:?} {cursor} {from:?} {to:?}"
                    );
                }
            }
        }
    }
}

#[test]
fn sorting_agrees_with_a_stable_sort_by_name() {
    let names = ["b", "a", "B", "", "ab", "a", "é", "aé", "日", "Z", "a"];
    let files: Vec<File> = names
        .iter()
        .enumerate()
        .map(|(i, n)| {
            if i % 2 == 0 {
                File::File(n.to_string())
            } else {
                File::Directory(n.to_string())
            }
        })
        .collect();
    let by_hand = sort_by_name(&files);
    let mut by_std = files;
    by_std.sort_by(|a, b| a.name().cmp(b.name()));
    assert_eq!(by_hand, by_std);
}

#[test]
fn text_helpers_agree_with_the_string_functions() {
    for text in TEXTS {
        assert_eq!(chars_of(text), chars(text));
        assert_eq!(text_of(&chars(text)), text);
        assert_eq!(len_of(text), text.len());
        let mut popped = text.to_string();
        popped.pop();
        assert_eq!(without_last(text), popped);
        for c in ['a', 'é', '~', ' '] {
            assert_eq!(ends_with_char(text, c), text.ends_with(c));
            assert_eq!(
                position(&chars(text), c),
                text.chars().position(|x| x == c).unwrap_or(text.chars().count())
            );
        }
        for pattern in PATTERNS {
            assert_eq!(starts_with(text, pattern), text.starts_with(pattern));
        }
    }
    for c in ['a', '\u{7f}', '\u{80}', 'é', '\u{7ff}', '\u{800}', '日', '\u{ffff}', '😀'] {
        assert_eq!(width_of(c), c.len_utf8());
    }
}

#[test]
fn select_numbers_agree_with_parse() {
    for digits in ["0", "7", "42", "007", "18446744073709551615", "18446744073709551616", ""] {
        let expected = match digits.parse::<usize>() {
            Ok(n) => Ok(Command::Select(Some(n))),
            Err(_) => Err(CommandError::InvalidNumber),
        };
        assert_eq!(Command::try_from(&format!("s:{}", digits)), expected);
    }
}
