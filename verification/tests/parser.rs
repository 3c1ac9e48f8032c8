use vshell::command::{Command, CommandError, CopyOutput, Edit, Replace};

fn parse(s: &str) -> Result<Command, CommandError> {
    Command::try_from(s)
}

#[test]
fn empty_buffer_is_an_empty_command() {
    assert_eq!(parse(""), Err(CommandError::EmptyCommand));
}

#[test]
fn unknown_name_is_invalid() {
    assert_eq!(parse("x"), Err(CommandError::InvalidCommand));
    assert_eq!(parse("Quit"), Err(CommandError::InvalidCommand));
    assert_eq!(parse(":q"), Err(CommandError::InvalidCommand));
    assert_eq!(parse(" q"), Err(CommandError::InvalidCommand));
}

#[test]
fn commands_without_argument() {
    for name in ["q", "quit", "exit"] {
        assert_eq!(parse(name), Ok(Command::Quit));
    }
    assert_eq!(parse("pin"), Ok(Command::Pin));
    for name in ["p", "paste"] {
        assert_eq!(parse(name), Ok(Command::Paste));
    }
    for name in ["th", "togglehints"] {
        assert_eq!(parse(name), Ok(Command::ToggleHints));
    }
    for name in ["sh", "switchhistory"] {
        assert_eq!(parse(name), Ok(Command::SwitchHistory));
    }
    for name in ["cp", "choosepath"] {
        assert_eq!(parse(name), Ok(Command::ChoosePath));
    }
    assert_eq!(parse("q:anything"), Ok(Command::Quit));
}

#[test]
fn change_takes_one_or_two_hints() {
    assert_eq!(parse("c:b"), Ok(Command::Edit(Edit::Single("b".to_string()))));
    assert_eq!(parse("change:ab"), Ok(Command::Edit(Edit::Single("ab".to_string()))));
    assert_eq!(
        parse("c:a,c"),
        Ok(Command::Edit(Edit::Range("a".to_string(), "c".to_string())))
    );
    assert_eq!(parse("c:B"), Ok(Command::Edit(Edit::Single("B".to_string()))));
}

#[test]
fn change_errors() {
    assert_eq!(parse("c"), Err(CommandError::InvalidCommand));
    assert_eq!(parse("c:"), Err(CommandError::MissingHints));
    assert_eq!(parse("c:1"), Err(CommandError::InvalidCharacter));
    assert_eq!(parse("c:a b"), Err(CommandError::InvalidCharacter));
    assert_eq!(parse("c:a,b,c"), Err(CommandError::InvalidCommand));
    assert_eq!(parse("c:,b"), Err(CommandError::MissingHints));
    assert_eq!(parse("c:a,"), Err(CommandError::MissingHints));
    assert_eq!(parse("c:1,"), Err(CommandError::InvalidCharacter));
    assert_eq!(parse("c:a,2"), Err(CommandError::InvalidCharacter));
    assert_eq!(parse("c:a:b"), Err(CommandError::InvalidCharacter));
}

#[test]
fn select_takes_digits() {
    assert_eq!(parse("s"), Ok(Command::Select(None)));
    assert_eq!(parse("select"), Ok(Command::Select(None)));
    assert_eq!(parse("s:0"), Ok(Command::Select(Some(0))));
    assert_eq!(parse("s:12"), Ok(Command::Select(Some(12))));
    assert_eq!(parse("select:007"), Ok(Command::Select(Some(7))));
    assert_eq!(
        parse(&format!("s:{}", usize::MAX)),
        Ok(Command::Select(Some(usize::MAX)))
    );
}

#[test]
fn select_errors() {
    assert_eq!(parse("s:"), Err(CommandError::InvalidNumber));
    assert_eq!(parse("s:a"), Err(CommandError::InvalidCharacter));
    assert_eq!(parse("s:-1"), Err(CommandError::InvalidCharacter));
    assert_eq!(parse("s:+1"), Err(CommandError::InvalidCharacter));
    assert_eq!(
        parse("s:99999999999999999999999999999999999999999"),
        Err(CommandError::InvalidNumber)
    );
    assert_eq!(
        parse(&format!("s:{}0", usize::MAX)),
        Err(CommandError::InvalidNumber)
    );
}

#[test]
fn jumps_take_an_optional_hint() {
    assert_eq!(parse("jb"), Ok(Command::JumpBefore(String::new())));
    assert_eq!(parse("jb:"), Ok(Command::JumpBefore(String::new())));
    assert_eq!(parse("jumpbefore:c"), Ok(Command::JumpBefore("c".to_string())));
    assert_eq!(parse("ja"), Ok(Command::JumpAfter(String::new())));
    assert_eq!(parse("jumpafter:ba"), Ok(Command::JumpAfter("ba".to_string())));
    assert_eq!(parse("jb:1"), Err(CommandError::InvalidCharacter));
    assert_eq!(parse("ja:a,b"), Err(CommandError::InvalidCharacter));
}

#[test]
fn copy_output_forms() {
    assert_eq!(parse("co"), Ok(Command::CopyOutput(CopyOutput::All)));
    assert_eq!(parse("copyoutput"), Ok(Command::CopyOutput(CopyOutput::All)));
    assert_eq!(
        parse("co:b"),
        Ok(Command::CopyOutput(CopyOutput::Single("b".to_string())))
    );
    assert_eq!(
        parse("co:b,d"),
        Ok(Command::CopyOutput(CopyOutput::Range("b".to_string(), "d".to_string())))
    );
    assert_eq!(parse("co:"), Err(CommandError::MissingHints));
    assert_eq!(parse("co:1"), Err(CommandError::InvalidCharacter));
    assert_eq!(parse("co:a,b,c"), Err(CommandError::InvalidCommand));
}

#[test]
fn shell_execute_forms() {
    assert_eq!(
        parse("se:bash"),
        Ok(Command::ShellExecute("bash".to_string(), None))
    );
    assert_eq!(
        parse("shellexecute:zsh,time "),
        Ok(Command::ShellExecute("zsh".to_string(), Some("time ".to_string())))
    );
    assert_eq!(
        parse("se:sh,a,b"),
        Ok(Command::ShellExecute("sh".to_string(), Some("a,b".to_string())))
    );
    assert_eq!(
        parse("se:sh,"),
        Ok(Command::ShellExecute("sh".to_string(), Some(String::new())))
    );
    assert_eq!(parse("se:"), Ok(Command::ShellExecute(String::new(), None)));
    assert_eq!(parse("se"), Err(CommandError::InvalidCommand));
}

#[test]
fn replace_forms() {
    assert_eq!(
        parse("rs:abc,xy"),
        Ok(Command::Replace(Replace::Single("abc".to_string(), "xy".to_string())))
    );
    assert_eq!(
        parse("replacesingle:a,"),
        Ok(Command::Replace(Replace::Single("a".to_string(), String::new())))
    );
    assert_eq!(
        parse("rg:a b,c d"),
        Ok(Command::Replace(Replace::Global("a b".to_string(), "c d".to_string())))
    );
    assert_eq!(
        parse("replaceglobal:x,y"),
        Ok(Command::Replace(Replace::Global("x".to_string(), "y".to_string())))
    );
}

#[test]
fn replace_escapes_commas() {
    assert_eq!(
        parse("rg:a\\,b,c"),
        Ok(Command::Replace(Replace::Global("a,b".to_string(), "c".to_string())))
    );
    assert_eq!(
        parse("rg:a\\\\,c"),
        Ok(Command::Replace(Replace::Global("a\\".to_string(), "c".to_string())))
    );
    assert_eq!(
        parse("rg:a\\b,c\\"),
        Ok(Command::Replace(Replace::Global("ab".to_string(), "c".to_string())))
    );
}

#[test]
fn replace_errors() {
    assert_eq!(parse("rs"), Err(CommandError::InvalidCommand));
    assert_eq!(parse("rs:abc"), Err(CommandError::InvalidCommand));
    assert_eq!(parse("rg:a,b,c"), Err(CommandError::InvalidCommand));
    assert_eq!(parse("rg:a\\,b"), Err(CommandError::InvalidCommand));
}

#[test]
fn argument_is_all_that_follows_the_first_colon() {
    assert_eq!(
        parse("se:bash,echo a:b"),
        Ok(Command::ShellExecute("bash".to_string(), Some("echo a:b".to_string())))
    );
    assert_eq!(
        parse("rg:a:b,c"),
        Ok(Command::Replace(Replace::Global("a:b".to_string(), "c".to_string())))
    );
}

#[test]
fn letters_beyond_ascii_pass_as_hints() {
    assert_eq!(parse("c:é"), Ok(Command::Edit(Edit::Single("é".to_string()))));
    assert_eq!(parse("c:a_"), Err(CommandError::InvalidCharacter));
}
