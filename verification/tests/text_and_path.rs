use shinydir::path::FilePath;
use shinydir::text::{chars_of, decimal, ends_with, escape_spaces, extension_of, join};

fn path(text: &str) -> FilePath {
    FilePath::parse(text)
}

#[test]
fn chars_of_gives_each_character() {
    assert_eq!(chars_of("a/b"), vec!['a', '/', 'b']);
    assert_eq!(chars_of(""), Vec::<char>::new());
}

#[test]
fn decimal_renders_exact_digits() {
    assert_eq!(decimal(0), "0");
    assert_eq!(decimal(7), "7");
    assert_eq!(decimal(10), "10");
    assert_eq!(decimal(12345), "12345");
    assert_eq!(decimal(usize::MAX), format!("{}", usize::MAX));
}

#[test]
fn join_puts_separator_between_neighbours_only() {
    let parts = vec![String::from("a"), String::from("b"), String::from("c")];
    assert_eq!(join(&parts, ", "), "a, b, c");
    assert_eq!(join(&vec![String::from("only")], ", "), "only");
    assert_eq!(join(&Vec::new(), ", "), "");
}

#[test]
fn escape_spaces_puts_backslash_before_each_space() {
    assert_eq!(escape_spaces("my file.txt"), "my\\ file.txt");
    assert_eq!(escape_spaces("a  b"), "a\\ \\ b");
    assert_eq!(escape_spaces("plain"), "plain");
    assert_eq!(escape_spaces(""), "");
}

#[test]
fn ends_with_tests_the_suffix() {
    assert!(ends_with("photo.png", ".png"));
    assert!(ends_with("photo.png", ""));
    assert!(!ends_with("photo.png", ".jpg"));
    assert!(!ends_with("g", ".png"));
}

#[test]
fn extension_is_what_follows_the_last_dot() {
    assert_eq!(extension_of("archive.tar.gz"), Some(String::from("gz")));
    assert_eq!(extension_of("photo.png"), Some(String::from("png")));
    assert_eq!(extension_of("README"), None);
    assert_eq!(extension_of(".bashrc"), None);
    assert_eq!(extension_of("trailing."), None);
    assert_eq!(extension_of(""), None);
}

#[test]
fn parse_drops_empty_names_and_single_dots() {
    assert_eq!(path("/home//user/./docs/").to_text(), "/home/user/docs");
    assert_eq!(path("a/b").to_text(), "a/b");
    assert_eq!(path("/").to_text(), "/");
    assert_eq!(path("").to_text(), "");
    assert_eq!(path(".").to_text(), "");
    assert_eq!(path("../x").to_text(), "../x");
    assert!(path("/x").is_absolute());
    assert!(!path("x").is_absolute());
    assert_eq!(path("/a/b/c").depth(), 3);
}

#[test]
fn parent_drops_the_last_name() {
    assert_eq!(path("/a/b").parent().map(|p| p.to_text()), Some(String::from("/a")));
    assert_eq!(path("/a").parent().map(|p| p.to_text()), Some(String::from("/")));
    assert_eq!(path("a").parent().map(|p| p.to_text()), Some(String::from("")));
    assert!(path("/").parent().is_none());
    assert!(path("").parent().is_none());
}

#[test]
fn file_name_is_the_last_name() {
    assert_eq!(path("/a/b.txt").file_name(), Some(String::from("b.txt")));
    assert_eq!(path("/").file_name(), None);
}

#[test]
fn join_appends_relative_and_replaces_by_absolute() {
    assert_eq!(path("/home/u").join(&path("Images/png")).to_text(), "/home/u/Images/png");
    assert_eq!(path("/home/u").join(&path("/srv/data")).to_text(), "/srv/data");
    assert_eq!(path("/home/u").join(&path("")).to_text(), "/home/u");
}

#[test]
fn placed_in_keeps_the_file_name() {
    assert_eq!(path("/d/a.png").placed_in(&path("/d/Images")).to_text(), "/d/Images/a.png");
    assert_eq!(path("/").placed_in(&path("/d/Images")).to_text(), "/d/Images");
}

#[test]
fn starts_with_and_strip_prefix_go_by_whole_names() {
    assert!(path("/home/user/docs").starts_with(&path("/home/user")));
    assert!(path("/home/user").starts_with(&path("/home/user")));
    assert!(!path("/home/username").starts_with(&path("/home/user")));
    assert!(!path("home/user").starts_with(&path("/home")));
    assert_eq!(
        path("/home/user/docs/a").strip_prefix(&path("/home/user")).map(|p| p.to_text()),
        Some(String::from("docs/a"))
    );
    assert_eq!(
        path("/home/user").strip_prefix(&path("/home/user")).map(|p| p.to_text()),
        Some(String::from(""))
    );
    assert!(path("/srv/x").strip_prefix(&path("/home")).is_none());
}

#[test]
fn same_as_compares_places_not_spellings() {
    assert!(path("/a//b/").same_as(&path("/a/b")));
    assert!(!path("/a/b").same_as(&path("a/b")));
    assert!(!path("/a/b").same_as(&path("/a/c")));
    assert!(!path("/a/b").same_as(&path("/a")));
    assert!(path("/a/b").clone().same_as(&path("/a/b")));
}
