use mod_manager::canonical::canonical_document;
use mod_manager::layout::ManagerError;
use mod_manager::steam::{collapse_doubled_backslashes, contains_text_in, library_folder_of_line, names_install_dir, quoted_field};

#[test]
fn library_line_gives_its_path() {
    let line = "\t\t\"path\"\t\t\"D:\\\\SteamLibrary\"";
    assert_eq!(library_folder_of_line(line), Some("D:\\SteamLibrary".to_string()));
}

#[test]
fn line_without_enough_quotes_gives_nothing() {
    assert_eq!(library_folder_of_line("\"contentstatsid\""), None);
    assert_eq!(quoted_field("no quotes", 1), None);
}

#[test]
fn quoted_fields_are_split_pieces() {
    let line = "a\"b\"c\"d";
    assert_eq!(quoted_field(line, 0), Some("a".to_string()));
    assert_eq!(quoted_field(line, 1), Some("b".to_string()));
    assert_eq!(quoted_field(line, 3), Some("d".to_string()));
    assert_eq!(quoted_field(line, 4), None);
    assert_eq!(quoted_field("x\"\"", 2), Some(String::new()));
}

#[test]
fn backslash_pairs_collapse_from_the_left() {
    assert_eq!(collapse_doubled_backslashes("a\\\\b"), "a\\b");
    assert_eq!(collapse_doubled_backslashes("\\\\\\"), "\\\\");
    assert_eq!(collapse_doubled_backslashes("plain"), "plain");
    assert_eq!(collapse_doubled_backslashes(""), "");
}

#[test]
fn manifest_install_dir_line_is_found() {
    let line = "\t\"installdir\"\t\t\"No Man's Sky\"";
    assert!(names_install_dir(line));
    assert!(!names_install_dir("\t\"name\"\t\t\"No Man's Sky\""));
    assert_eq!(quoted_field(line, 3), Some("No Man's Sky".to_string()));
}

#[test]
fn text_search() {
    assert!(contains_text_in("abcdef", "cde"));
    assert!(contains_text_in("abc", ""));
    assert!(!contains_text_in("ab", "abc"));
    assert!(!contains_text_in("abcdef", "ce"));
}

#[test]
fn markup_is_reindented_behind_the_declaration() {
    let out = canonical_document("<Data template=\"T\"><Property name=\"A\" value=\"1\"/></Data>").unwrap();
    assert_eq!(
        out,
        "<?xml version=\"1.0\" encoding=\"utf-8\"?>\n<Data template=\"T\">\n  <Property name=\"A\" value=\"1\"/>\n</Data>"
    );
}

#[test]
fn canonical_text_is_stable() {
    let once = canonical_document("<Data>\n   <A>\n x </A>\n</Data>").unwrap();
    let body = once.splitn(2, '\n').nth(1).unwrap().to_string();
    let twice = canonical_document(&body).unwrap();
    assert_eq!(once, twice);
}

#[test]
fn broken_markup_is_refused() {
    assert_eq!(canonical_document("<Data></Other>"), Err(ManagerError::SerializeFailure));
}
