use sorterylib::structs::File;
use sorterylib::structs::Join;
use std::path::PathBuf;

#[test]
fn test_file() {
    // The variables used for testing
    let path = "my_file.txt";
    let joined_path = "my_file.txt/my_file.txt";
    let file = File::new(path);

    // Test the methods
    assert_eq!(file.copy(), File { path: String::from(path) });
    assert_eq!(file.extension(), String::from("txt"));
    assert_eq!(file.file_name(), String::from("my_file.txt"));
    assert_eq!(file.file_stem(), String::from("my_file"));
    assert_eq!(file.join(File::new(path)), File { path: String::from(joined_path) });
    assert_eq!(file.join(String::from("my_file.txt")), File { path: String::from(joined_path) });
    assert_eq!(file.join("my_file.txt"), File { path: String::from(joined_path) });
    assert_eq!(File::new("my_file.txt"), File { path: String::from(path) });
    assert_eq!(file.to_path_buf(), PathBuf::from(path));
    assert_eq!(file.to_string(), String::from("my_file.txt"));
}

#[test]
fn test_file_without_extension() {
    let file = File::new("files/test");
    assert_eq!(file.file_name(), String::from("test"));
    assert_eq!(file.file_stem(), String::from("test"));
    assert_eq!(file.extension(), String::from(""));
}

#[test]
fn test_extension_looks_only_at_file_name() {
    // The dot sits in a directory component, not in the file name.
    let file = File::new("photos.old/report");
    assert_eq!(file.file_name(), String::from("report"));
    assert_eq!(file.extension(), String::from(""));
    assert_eq!(file.file_stem(), String::from("report"));
}

#[test]
fn test_join_keeps_single_separator() {
    let dir = File::new("a/b/");
    assert_eq!(dir.join("c.txt"), File { path: String::from("a/b/c.txt") });
    let empty = File::new("");
    assert_eq!(empty.join("c.txt"), File { path: String::from("c.txt") });
}

#[test]
fn test_path_does_not_exist_error_message() {
    let e = sorterylib::errors::PathDoesNotExistError { path: String::from("/no/such/dir") };
    assert_eq!(e.message(), String::from("Error: \"/no/such/dir\" does not exist."));
}
