use vshell::directory::{
    comes_before, filter_files, position_in_list, sort_by_name, starts_with, Click, Directory, File,
    Rect,
};

fn names(files: &[File]) -> Vec<String> {
    files.iter().map(|f| f.to_string()).collect()
}

fn chars(s: &str) -> Vec<char> {
    s.chars().collect()
}

#[test]
fn sort_files() {
    let files = vec![
        File::File("b".to_string()),
        File::Directory("a".to_string()),
        File::Directory("c".to_string()),
        File::File("a".to_string()),
    ];
    assert_eq!(
        sort_by_name(&files),
        vec![
            File::Directory("a".to_string()),
            File::File("a".to_string()),
            File::File("b".to_string()),
            File::Directory("c".to_string()),
        ]
    );
}

#[test]
fn sorting_goes_by_code_points() {
    let files = vec![
        File::File("b".to_string()),
        File::File("B".to_string()),
        File::File("ab".to_string()),
        File::File("a".to_string()),
        File::File("é".to_string()),
        File::File("".to_string()),
        File::File("Z".to_string()),
    ];
    assert_eq!(names(&sort_by_name(&files)), vec!["", "B", "Z", "a", "ab", "b", "é"]);
    assert_eq!(sort_by_name(&Vec::new()), Vec::new());
}

#[test]
fn name_order() {
    assert!(comes_before(&chars("a"), &chars("b")));
    assert!(!comes_before(&chars("b"), &chars("a")));
    assert!(!comes_before(&chars("a"), &chars("a")));
    assert!(comes_before(&chars("a"), &chars("ab")));
    assert!(!comes_before(&chars("ab"), &chars("a")));
    assert!(comes_before(&chars(""), &chars("a")));
    assert!(!comes_before(&chars(""), &chars("")));
    assert!(comes_before(&chars("Zz"), &chars("a")));
}

#[test]
fn directory_filter() {
    let children = vec![
        File::File("Apple".to_string()),
        File::File("banana".to_string()),
        File::Directory("Cherry".to_string()),
    ];
    assert_eq!(
        filter_files(&children, "c"),
        vec![File::Directory("Cherry".to_string())]
    );
    assert_eq!(
        filter_files(&children, "C"),
        vec![File::Directory("Cherry".to_string())]
    );
    assert_eq!(
        filter_files(&children, "BAN"),
        vec![File::File("banana".to_string())]
    );
    assert_eq!(filter_files(&children, "x"), Vec::new());
    assert_eq!(filter_files(&children, ""), children);
}

#[test]
fn prefixes() {
    assert!(starts_with("cherry", "c"));
    assert!(starts_with("cherry", ""));
    assert!(starts_with("cherry", "cherry"));
    assert!(!starts_with("cherry", "cherrys"));
    assert!(!starts_with("cherry", "h"));
    assert!(!starts_with("", "a"));
}

#[test]
fn set_children_sorts_and_narrows() {
    let entries = vec![
        File::File("beta".to_string()),
        File::Directory("Alpha".to_string()),
        File::File("alps".to_string()),
    ];
    let mut directory = Directory::new("/d".to_string(), &Vec::new());
    directory.set_children(&entries);
    assert_eq!(names(&directory.children), vec!["Alpha", "alps", "beta"]);
    directory.search = "AL".to_string();
    directory.set_children(&entries);
    assert_eq!(names(&directory.children), vec!["Alpha", "alps"]);
    assert_eq!(directory.search, "AL");
    assert_eq!(directory.current_dir, "/d");
}

#[test]
fn move_to_clears_the_search() {
    let mut directory = Directory::new("/d".to_string(), &vec![File::File("x".to_string())]);
    directory.search = "x".to_string();
    directory.move_to("/e".to_string(), None);
    assert_eq!(directory.search, "");
    assert_eq!(directory.current_dir, "/e");
    assert_eq!(names(&directory.children), vec!["x"]);
    directory.move_to(
        "/f".to_string(),
        Some(&vec![File::File("z".to_string()), File::File("y".to_string())]),
    );
    assert_eq!(directory.current_dir, "/f");
    assert_eq!(names(&directory.children), vec!["y", "z"]);
}

#[test]
fn rows_of_the_list() {
    let area = Rect {
        x: 2,
        y: 3,
        width: 4,
        height: 5,
    };
    assert_eq!(position_in_list(area, (2, 3)), Some(0));
    assert_eq!(position_in_list(area, (6, 8)), Some(5));
    assert_eq!(position_in_list(area, (4, 5)), Some(2));
    assert_eq!(position_in_list(area, (1, 3)), None);
    assert_eq!(position_in_list(area, (7, 3)), None);
    assert_eq!(position_in_list(area, (2, 2)), None);
    assert_eq!(position_in_list(area, (2, 9)), None);
}

#[test]
fn rows_at_the_edge_of_the_screen() {
    let area = Rect {
        x: u16::MAX - 1,
        y: u16::MAX - 2,
        width: 10,
        height: 10,
    };
    assert_eq!(position_in_list(area, (u16::MAX, u16::MAX)), Some(2));
    assert_eq!(position_in_list(area, (0, u16::MAX)), None);
}

#[test]
fn clicks() {
    let mut directory = Directory::new(
        "/d".to_string(),
        &vec![File::File("f".to_string()), File::Directory("d".to_string())],
    );
    assert_eq!(directory.click((0, 0)), Click::Outside);
    directory.location = Some(Rect {
        x: 0,
        y: 10,
        width: 5,
        height: 5,
    });
    assert_eq!(directory.click((0, 9)), Click::Outside);
    assert_eq!(directory.click((0, 10)), Click::InsertCurrent);
    assert_eq!(directory.click((0, 11)), Click::Parent);
    assert_eq!(directory.click((0, 12)), Click::Enter("d".to_string()));
    assert_eq!(directory.click((0, 13)), Click::InsertFile("f".to_string()));
    assert_eq!(directory.click((0, 14)), Click::Nothing);
    assert_eq!(directory.click((0, 16)), Click::Outside);
}
