use vshell::directory::{Directory, File, Rect};
use vshell::model::{
    CommandWithoutOutput, CompletedCommand, CurrentView, HintState, HistoryType, Origin, Output,
    OutputType,
};
use vshell::session::{Mode, Model};
use vshell::update::{update, Effect, Event};

fn line(input: &str, cursor_position: u64) -> CommandWithoutOutput {
    CommandWithoutOutput {
        cursor_position,
        input: input.to_string(),
    }
}

fn editing(input: &str, cursor_position: u64) -> CurrentView {
    CurrentView::CommandWithoutOutput(line(input, cursor_position))
}

fn ran(input: &str, stdout: &str, stderr: &str) -> CompletedCommand {
    CompletedCommand {
        input: input.to_string(),
        output: Output {
            origin: Origin::Vshell,
            output_type: OutputType::Success(stdout.to_string(), stderr.to_string()),
        },
    }
}

fn session(view: CurrentView) -> Model {
    let mut model = Model::new("/start".to_string());
    model.current_command = view;
    model
}

fn type_text(model: &mut Model, text: &str) {
    for c in text.chars() {
        assert_eq!(update(model, Event::Character(c)), Effect::Nothing);
    }
}

fn command(model: &mut Model, buffer: &str) -> Effect {
    assert_eq!(update(model, Event::Esc), Effect::Nothing);
    assert_eq!(model.mode, Mode::Command(String::new()));
    type_text(model, buffer);
    assert_eq!(model.mode, Mode::Command(buffer.to_string()));
    update(model, Event::Enter)
}

#[test]
fn typing_edits_the_line() {
    let mut model = session(editing("", 0));
    type_text(&mut model, "ls");
    assert_eq!(model.current_command, editing("ls", 2));
    update(&mut model, Event::Left);
    type_text(&mut model, "x");
    assert_eq!(model.current_command, editing("lxs", 2));
    update(&mut model, Event::Backspace);
    assert_eq!(model.current_command, editing("ls", 1));
    update(&mut model, Event::Right);
    update(&mut model, Event::Right);
    assert_eq!(model.current_command, editing("ls", 2));
}

#[test]
fn typing_on_a_recalled_command_reopens_it() {
    let mut model = session(CurrentView::CommandWithOutput(ran("echo", "", "")));
    model.command_history.push(ran("echo", "", ""));
    model.command_history_index = 0;
    type_text(&mut model, "!");
    assert_eq!(model.current_command, editing("echo!", 5));
    assert_eq!(model.command_history_index, 1);
}

#[test]
fn typing_on_a_bare_output_starts_a_line() {
    let mut model = session(CurrentView::Output(ran("x", "out", "").output));
    type_text(&mut model, "é");
    assert_eq!(model.current_command, editing("é", 1));
}

#[test]
fn keys_on_a_recalled_command() {
    let recalled = CurrentView::CommandWithOutput(ran("echo", "", ""));
    let mut model = session(recalled.clone());
    update(&mut model, Event::Backspace);
    assert_eq!(model.current_command, editing("ech", 3));
    let mut model = session(recalled.clone());
    update(&mut model, Event::Left);
    assert_eq!(model.current_command, editing("echo", 3));
    let mut model = session(recalled.clone());
    update(&mut model, Event::Right);
    assert_eq!(model.current_command, editing("echo", 4));
    let mut model = session(recalled);
    update(&mut model, Event::Paste(" hi".to_string()));
    assert_eq!(model.current_command, editing("echo hi", 7));
}

#[test]
fn keys_on_a_bare_output() {
    let bare = CurrentView::Output(ran("x", "out", "").output);
    for event in [Event::Backspace, Event::Left, Event::Right, Event::Enter] {
        let mut model = session(bare.clone());
        assert_eq!(update(&mut model, event), Effect::Nothing);
        assert_eq!(model.current_command, bare);
        assert_eq!(model.mode, Mode::Idle);
    }
    let mut model = session(bare);
    update(&mut model, Event::Paste("ls".to_string()));
    assert_eq!(model.current_command, editing("ls", 2));
}

#[test]
fn paste_event_splices_at_the_cursor() {
    let mut model = session(editing("ab", 1));
    assert_eq!(update(&mut model, Event::Paste("XY".to_string())), Effect::Nothing);
    assert_eq!(model.current_command, editing("aXYb", 3));
}

#[test]
fn enter_runs_the_line() {
    let mut model = session(editing("ls -l", 2));
    assert_eq!(update(&mut model, Event::Enter), Effect::Execute("ls -l".to_string()));
    assert_eq!(model.mode, Mode::Executing(true, 0));
    assert_eq!(model.current_command, editing("ls -l", 2));
}

#[test]
fn enter_on_an_empty_line_does_nothing() {
    let mut model = session(editing("", 0));
    assert_eq!(update(&mut model, Event::Enter), Effect::Nothing);
    assert_eq!(model.mode, Mode::Idle);
    assert_eq!(model.current_command, editing("", 0));
}

#[test]
fn enter_continues_an_unfinished_line() {
    let mut model = session(editing("echo 'a", 3));
    assert_eq!(update(&mut model, Event::Enter), Effect::Nothing);
    assert_eq!(model.mode, Mode::Idle);
    assert_eq!(model.current_command, editing("echo 'a\n", 8));
    let mut model = session(editing("echo \\", 0));
    assert_eq!(update(&mut model, Event::Enter), Effect::Nothing);
    assert_eq!(model.current_command, editing("echo \\\n", 7));
}

#[test]
fn enter_on_a_recalled_command_runs_it_again() {
    let mut model = session(CurrentView::CommandWithOutput(ran("echo", "x", "")));
    assert_eq!(update(&mut model, Event::Enter), Effect::Execute("echo".to_string()));
    assert_eq!(model.mode, Mode::Executing(true, 0));
    assert_eq!(model.current_command, editing("echo", 4));
}

#[test]
fn only_the_interrupt_counts_while_a_command_runs() {
    let mut model = session(editing("sleep 100", 9));
    assert_eq!(
        update(&mut model, Event::Enter),
        Effect::Execute("sleep 100".to_string())
    );
    for event in [
        Event::Enter,
        Event::Character('x'),
        Event::Backspace,
        Event::Esc,
        Event::Up,
        Event::Paste("x".to_string()),
    ] {
        assert_eq!(update(&mut model, event), Effect::Nothing);
        assert_eq!(model.mode, Mode::Executing(true, 0));
        assert_eq!(model.current_command, editing("sleep 100", 9));
    }
    assert_eq!(update(&mut model, Event::CtrlC), Effect::Cancel);
    assert_eq!(model.mode, Mode::Idle);
}

#[test]
fn interrupt_does_nothing_outside_a_run() {
    let mut model = session(editing("ls", 2));
    assert_eq!(update(&mut model, Event::CtrlC), Effect::Nothing);
    assert_eq!(model.mode, Mode::Idle);
    update(&mut model, Event::Esc);
    assert_eq!(update(&mut model, Event::CtrlC), Effect::Nothing);
    assert_eq!(model.mode, Mode::Command(String::new()));
}

#[test]
fn nothing_changes_a_session_that_is_over() {
    let mut model = session(editing("ls", 2));
    assert_eq!(command(&mut model, "q"), Effect::Nothing);
    assert!(model.should_quit());
    for event in [Event::Enter, Event::Character('x'), Event::Esc, Event::CtrlC] {
        assert_eq!(update(&mut model, event), Effect::Nothing);
        assert_eq!(model.mode, Mode::Quit);
    }
}

#[test]
fn command_buffer_is_edited() {
    let mut model = session(editing("ls", 2));
    update(&mut model, Event::Esc);
    type_text(&mut model, "pim");
    update(&mut model, Event::Backspace);
    type_text(&mut model, "n");
    assert_eq!(model.mode, Mode::Command("pin".to_string()));
    update(&mut model, Event::Esc);
    assert_eq!(model.mode, Mode::Idle);
    assert_eq!(model.current_command, editing("ls", 2));
}

#[test]
fn unknown_command_keeps_the_buffer() {
    let mut model = session(editing("ls", 2));
    assert_eq!(command(&mut model, "nope"), Effect::Nothing);
    assert_eq!(model.mode, Mode::Command("nope".to_string()));
    update(&mut model, Event::Esc);
    assert_eq!(command(&mut model, ""), Effect::Nothing);
    assert_eq!(model.mode, Mode::Command(String::new()));
}

#[test]
fn edit_single_by_hint() {
    let mut model = session(editing("foo bar baz", 0));
    assert_eq!(command(&mut model, "c:b"), Effect::Nothing);
    assert_eq!(model.current_command, editing("foo  baz", 4));
    assert_eq!(model.mode, Mode::Idle);
}

#[test]
fn edit_range_by_hints() {
    let mut model = session(editing("a b c d", 0));
    assert_eq!(command(&mut model, "c:b,c"), Effect::Nothing);
    assert_eq!(model.current_command, editing("a  d", 2));
    assert_eq!(model.mode, Mode::Idle);
}

#[test]
fn edit_with_a_bad_hint_only_leaves_the_command_mode() {
    let mut model = session(editing("foo bar", 3));
    assert_eq!(command(&mut model, "c:B"), Effect::Nothing);
    assert_eq!(model.current_command, editing("foo bar", 3));
    assert_eq!(model.mode, Mode::Idle);
    assert_eq!(command(&mut model, "c:b,a"), Effect::Nothing);
    assert_eq!(model.current_command, editing("foo bar", 3));
    assert_eq!(model.mode, Mode::Idle);
}

#[test]
fn edit_reopens_a_recalled_command() {
    let mut model = session(CurrentView::CommandWithOutput(ran("foo bar", "", "")));
    assert_eq!(command(&mut model, "c:a"), Effect::Nothing);
    assert_eq!(model.current_command, editing(" bar", 0));
    let mut model = session(CurrentView::CommandWithOutput(ran("foo bar", "", "")));
    assert_eq!(command(&mut model, "c:z"), Effect::Nothing);
    assert_eq!(model.current_command, editing("foo bar", 7));
    assert_eq!(model.mode, Mode::Idle);
}

#[test]
fn edit_on_a_bare_output_keeps_the_command_mode() {
    let bare = CurrentView::Output(ran("x", "out", "").output);
    for buffer in ["c:a", "jb:a", "ja", "cp"] {
        let mut model = session(bare.clone());
        assert_eq!(command(&mut model, buffer), Effect::Nothing);
        assert_eq!(model.mode, Mode::Command(buffer.to_string()));
        assert_eq!(model.current_command, bare);
    }
}

#[test]
fn jump_commands() {
    let mut model = session(editing("foo bar baz", 0));
    command(&mut model, "jb:c");
    assert_eq!(model.current_command, editing("foo bar baz", 8));
    command(&mut model, "ja:a");
    assert_eq!(model.current_command, editing("foo bar baz", 3));
    command(&mut model, "jb");
    assert_eq!(model.current_command, editing("foo bar baz", 11));
    command(&mut model, "jb:A");
    assert_eq!(model.current_command, editing("foo bar baz", 11));
    assert_eq!(model.mode, Mode::Idle);
}

#[test]
fn replace_single_anchoring() {
    let mut model = session(editing("abcabc", 3));
    assert_eq!(command(&mut model, "rs:abc,xy"), Effect::Nothing);
    assert_eq!(model.current_command, editing("abcxy", 3));
    assert_eq!(model.mode, Mode::Idle);
}

#[test]
fn replace_on_other_views() {
    let mut model = session(CurrentView::CommandWithOutput(ran("abcabc", "", "")));
    command(&mut model, "rs:abc,xy");
    assert_eq!(model.current_command, editing("xyabc", 5));
    let mut model = session(CurrentView::CommandWithOutput(ran("abcabc", "", "")));
    command(&mut model, "rg:abc,xy");
    assert_eq!(model.current_command, editing("xyxy", 4));
    let mut model = session(editing("abcabc", 1));
    command(&mut model, "rg:b,");
    assert_eq!(model.current_command, editing("acac", 4));
    let bare = CurrentView::Output(ran("x", "out", "").output);
    let mut model = session(bare.clone());
    command(&mut model, "rg:o,a");
    assert_eq!(model.current_command, bare);
    assert_eq!(model.mode, Mode::Idle);
}

#[test]
fn pin_command() {
    let mut model = session(editing("ls -l", 3));
    assert_eq!(command(&mut model, "pin"), Effect::Nothing);
    assert_eq!(model.pinned_commands, vec![line("ls -l", 3)]);
    assert_eq!(model.mode, Mode::Idle);
    assert_eq!(command(&mut model, "pin"), Effect::Nothing);
    assert!(model.pinned_commands.is_empty());
}

#[test]
fn select_command_by_number() {
    let mut model = session(editing("", 0));
    model.finish_execution(ran("first", "", ""), None);
    model.finish_execution(ran("second", "", ""), None);
    model.current_command = editing("pinned", 2);
    command(&mut model, "pin");
    assert_eq!(command(&mut model, "s:0"), Effect::Nothing);
    assert_eq!(model.current_command, editing("pinned", 2));
    assert_eq!(command(&mut model, "s:1"), Effect::Nothing);
    assert_eq!(model.current_command, editing("second", 6));
    assert_eq!(command(&mut model, "s:2"), Effect::Nothing);
    assert_eq!(model.current_command, editing("first", 5));
    assert_eq!(command(&mut model, "s:3"), Effect::Nothing);
    assert_eq!(model.current_command, editing("first", 5));
    assert_eq!(model.mode, Mode::Idle);
    assert_eq!(model.command_history.len(), 2);
}

#[test]
fn select_directory_asks_for_a_directory_change() {
    let mut model = session(editing("", 0));
    model.add_current_directory_to_history(Some("/other dir".to_string()));
    assert_eq!(command(&mut model, "sh"), Effect::Nothing);
    assert_eq!(model.config.history_type, HistoryType::DirectoryHistory);
    assert_eq!(
        command(&mut model, "s:1"),
        Effect::ChangeDirectory("cd \"/start\"".to_string())
    );
    assert_eq!(model.mode, Mode::Idle);
    assert_eq!(
        command(&mut model, "s:0"),
        Effect::ChangeDirectory("cd \"/other dir\"".to_string())
    );
    assert_eq!(command(&mut model, "s:2"), Effect::Nothing);
    assert_eq!(model.mode, Mode::Idle);
    assert_eq!(command(&mut model, "s"), Effect::Nothing);
    assert_eq!(model.mode, Mode::Idle);
    assert_eq!(command(&mut model, "switchhistory"), Effect::Nothing);
    assert_eq!(model.config.history_type, HistoryType::CommandHistory);
}

#[test]
fn toggle_hints_command() {
    let mut model = session(editing("", 0));
    assert_eq!(model.config.hint_state, HintState::HideHints);
    command(&mut model, "th");
    assert_eq!(model.config.hint_state, HintState::ShowHints);
    command(&mut model, "togglehints");
    assert_eq!(model.config.hint_state, HintState::HideHints);
    assert_eq!(model.mode, Mode::Idle);
}

#[test]
fn paste_command_asks_for_the_clipboard() {
    let mut model = session(editing("ab", 1));
    assert_eq!(command(&mut model, "p"), Effect::Paste);
    assert_eq!(model.mode, Mode::Idle);
    model.paste("--");
    assert_eq!(model.current_command, editing("a--b", 3));
}

#[test]
fn copy_output_commands() {
    let shown = CurrentView::Output(ran("x", "foo bar\nbaz", "").output);
    let mut model = session(shown.clone());
    assert_eq!(
        command(&mut model, "co"),
        Effect::SetClipboard("foo bar\nbaz".to_string())
    );
    assert_eq!(model.mode, Mode::Idle);
    assert_eq!(
        command(&mut model, "co:b"),
        Effect::SetClipboard(" bar".to_string())
    );
    assert_eq!(
        command(&mut model, "co:b,c"),
        Effect::SetClipboard(" bar\nbaz".to_string())
    );
    assert_eq!(command(&mut model, "co:c,b"), Effect::Nothing);
    assert_eq!(command(&mut model, "co:B"), Effect::Nothing);
    assert_eq!(model.mode, Mode::Idle);
    assert_eq!(model.current_command, shown);
}

#[test]
fn copy_output_of_both_streams() {
    let mut model = session(CurrentView::CommandWithOutput(ran("x", "out", "err")));
    assert_eq!(
        command(&mut model, "co"),
        Effect::SetClipboard("STDERR:\n\nerr\nSTDOUT:\n\nout".to_string())
    );
    assert_eq!(
        command(&mut model, "co:b"),
        Effect::SetClipboard("\n\nerr".to_string())
    );
}

#[test]
fn copy_output_without_output_does_nothing() {
    let mut model = session(editing("ls", 2));
    assert_eq!(command(&mut model, "co"), Effect::Nothing);
    assert_eq!(model.mode, Mode::Idle);
}

#[test]
fn shell_execute_command() {
    let mut model = session(editing("ls | wc", 2));
    assert_eq!(
        command(&mut model, "se:bash,time "),
        Effect::ShellExecute(
            "bash".to_string(),
            Some("time ".to_string()),
            "ls | wc".to_string()
        )
    );
    assert_eq!(model.mode, Mode::Executing(true, 0));
    let mut model = session(editing("", 0));
    assert_eq!(command(&mut model, "se:bash"), Effect::Nothing);
    assert_eq!(model.mode, Mode::Idle);
    let mut model = session(editing("echo \"", 0));
    assert_eq!(command(&mut model, "se:bash"), Effect::Nothing);
    assert_eq!(model.current_command, editing("echo \"\n", 7));
    assert_eq!(model.mode, Mode::Idle);
    let mut model = session(CurrentView::CommandWithOutput(ran("ls", "", "")));
    assert_eq!(
        command(&mut model, "se:zsh"),
        Effect::ShellExecute("zsh".to_string(), None, "ls".to_string())
    );
    assert_eq!(model.current_command, editing("ls", 2));
    assert_eq!(model.mode, Mode::Executing(true, 0));
}

fn browser() -> Directory {
    Directory {
        search: "ab".to_string(),
        path: None,
        current_dir: "/home/me".to_string(),
        children: vec![
            File::Directory("docs".to_string()),
            File::File("notes.txt".to_string()),
        ],
        location: Some(Rect {
            x: 10,
            y: 5,
            width: 20,
            height: 8,
        }),
    }
}

fn browsing(view: CurrentView) -> Model {
    let mut model = session(view);
    model.mode = Mode::Directory(browser());
    model
}

fn search_of(model: &Model) -> String {
    match &model.mode {
        Mode::Directory(directory) => directory.search.clone(),
        other => panic!("not browsing: {:?}", other),
    }
}

#[test]
fn choose_path_asks_for_the_working_directory() {
    let mut model = session(editing("cat ", 4));
    assert_eq!(command(&mut model, "cp"), Effect::ChoosePath);
    assert_eq!(model.mode, Mode::Command("cp".to_string()));
    let entries = vec![
        File::File("b".to_string()),
        File::Directory("a".to_string()),
    ];
    model.open_directory("/work".to_string(), &entries);
    assert_eq!(
        model.mode,
        Mode::Directory(Directory {
            search: String::new(),
            path: None,
            current_dir: "/work".to_string(),
            children: vec![
                File::Directory("a".to_string()),
                File::File("b".to_string())
            ],
            location: None,
        })
    );
}

#[test]
fn browser_search_is_typed() {
    let mut model = browsing(editing("cat ", 4));
    assert_eq!(update(&mut model, Event::Character('c')), Effect::ListDirectory);
    assert_eq!(search_of(&model), "abc");
    assert_eq!(update(&mut model, Event::Backspace), Effect::ListDirectory);
    assert_eq!(update(&mut model, Event::Backspace), Effect::ListDirectory);
    assert_eq!(search_of(&model), "a");
    assert_eq!(
        update(&mut model, Event::Enter),
        Effect::ProbeDirectory("a".to_string())
    );
    assert_eq!(search_of(&model), "a");
    assert_eq!(model.current_command, editing("cat ", 4));
}

#[test]
fn browser_escape_closes_it() {
    let mut model = browsing(editing("cat ", 4));
    assert_eq!(update(&mut model, Event::Esc), Effect::DisableMouseCapture);
    assert_eq!(model.mode, Mode::Idle);
    assert_eq!(model.current_command, editing("cat ", 4));
}

#[test]
fn browser_click_outside_the_list_does_nothing() {
    let mut model = browsing(editing("cat ", 4));
    for (x, y) in [(9, 5), (31, 5), (10, 4), (10, 14)] {
        assert_eq!(update(&mut model, Event::MouseDown(x, y)), Effect::Nothing);
        assert_eq!(model.mode, Mode::Directory(browser()));
    }
}

#[test]
fn browser_click_on_the_first_row_inserts_the_directory() {
    let mut model = browsing(editing("cat  x", 4));
    assert_eq!(
        update(&mut model, Event::MouseDown(10, 5)),
        Effect::DisableMouseCapture
    );
    assert_eq!(model.mode, Mode::Idle);
    assert_eq!(model.current_command, editing("cat /home/me x", 12));
}

#[test]
fn browser_click_on_the_second_row_goes_up() {
    let mut model = browsing(editing("cat ", 4));
    assert_eq!(update(&mut model, Event::MouseDown(30, 6)), Effect::GoToParent);
    assert_eq!(search_of(&model), "");
    model.enter_directory("/home".to_string(), Some(&vec![File::Directory("me".to_string())]));
    assert_eq!(
        model.mode,
        Mode::Directory(Directory {
            search: String::new(),
            path: None,
            current_dir: "/home".to_string(),
            children: vec![File::Directory("me".to_string())],
            location: browser().location,
        })
    );
}

#[test]
fn browser_click_on_entries() {
    let mut model = browsing(editing("cat ", 4));
    assert_eq!(
        update(&mut model, Event::MouseDown(12, 7)),
        Effect::GoInto("docs".to_string())
    );
    assert_eq!(search_of(&model), "");
    let mut model = browsing(editing("cat ", 4));
    assert_eq!(
        update(&mut model, Event::MouseDown(12, 8)),
        Effect::InsertFile("notes.txt".to_string())
    );
    assert_eq!(search_of(&model), "");
    model.insert_path("/home/me/notes.txt");
    assert_eq!(model.mode, Mode::Idle);
    assert_eq!(model.current_command, editing("cat /home/me/notes.txt", 22));
    let mut model = browsing(editing("cat ", 4));
    assert_eq!(update(&mut model, Event::MouseDown(12, 9)), Effect::Nothing);
    assert_eq!(search_of(&model), "");
    assert_eq!(update(&mut model, Event::MouseDown(12, 13)), Effect::Nothing);
}

#[test]
fn browser_without_a_drawn_list_ignores_clicks() {
    let mut model = browsing(editing("cat ", 4));
    if let Mode::Directory(directory) = &mut model.mode {
        directory.location = None;
    }
    assert_eq!(update(&mut model, Event::MouseDown(10, 5)), Effect::Nothing);
    assert_eq!(search_of(&model), "ab");
    model.set_list_location(Rect {
        x: 0,
        y: 0,
        width: 1,
        height: 1,
    });
    assert_eq!(
        update(&mut model, Event::MouseDown(1, 1)),
        Effect::GoToParent
    );
}

#[test]
fn events_keep_the_session_consistent() {
    let mut model = session(editing("", 0));
    let events = [
        Event::Character('l'),
        Event::Character('s'),
        Event::Up,
        Event::Down,
        Event::Esc,
        Event::Character('p'),
        Event::Character('i'),
        Event::Character('n'),
        Event::Enter,
        Event::Up,
        Event::Left,
        Event::Enter,
    ];
    for event in events {
        update(&mut model, event);
        assert!(model.is_consistent());
        assert!(model.command_history_index <= model.command_history.len());
        assert!(!model.directory_history.is_empty());
    }
    model.finish_execution(ran("", "", ""), Some("/next".to_string()));
    assert_eq!(model.command_history_index, model.command_history.len());
    update(&mut model, Event::Up);
    assert_eq!(model.command_history_index, 0);
    update(&mut model, Event::Up);
    assert_eq!(model.command_history_index, 0);
}
