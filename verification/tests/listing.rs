use file_manager::listing::{is_hidden, is_listed, matches_search, FileInfo, ListFilesResponse};

fn info(name: &str, is_dir: bool, size: u64) -> FileInfo {
    FileInfo {
        name: name.to_string(),
        path: format!("/home/u/{}", name),
        size,
        created: 1_700_000_000,
        is_dir,
    }
}

#[test]
fn names_with_a_leading_dot_are_hidden() {
    assert!(is_hidden(".git"));
    assert!(is_hidden("."));
    assert!(is_hidden(".."));
    assert!(!is_hidden("a.txt"));
    assert!(!is_hidden("git."));
    assert!(!is_hidden(""));
}

#[test]
fn empty_search_is_answered_by_every_name() {
    assert!(matches_search("anything", ""));
    assert!(matches_search("", ""));
}

#[test]
fn search_sets_letter_case_aside() {
    assert!(matches_search("README.md", "readme"));
    assert!(matches_search("readme.md", "README"));
    assert!(matches_search("Notes-ÄÖ.txt", "äö"));
    assert!(!matches_search("README.md", "license"));
}

#[test]
fn search_looks_anywhere_in_the_name() {
    assert!(matches_search("photo_2024.jpg", "2024"));
    assert!(matches_search("photo_2024.jpg", ".jpg"));
    assert!(matches_search("photo_2024.jpg", "photo_2024.jpg"));
    assert!(!matches_search("photo_2024.jpg", "photo_2024.jpeg"));
    assert!(!matches_search("a", "aa"));
    assert!(!matches_search("", "a"));
}

#[test]
fn hidden_names_are_not_listed_even_when_they_answer() {
    assert!(!is_listed(".bashrc", "bash"));
    assert!(!is_listed(".bashrc", ""));
    assert!(is_listed("bashrc", "BASH"));
    assert!(is_listed("bashrc", ""));
    assert!(!is_listed("bashrc", "zsh"));
}

#[test]
fn response_tallies_files_and_folders() {
    let files = vec![
        info("src", true, 4096),
        info("Cargo.toml", false, 120),
        info("target", true, 4096),
        info("README.md", false, 900),
        info("notes", false, 0),
    ];
    let response = ListFilesResponse::new(files);
    assert_eq!(response.total_files, 3);
    assert_eq!(response.total_folders, 2);
    assert_eq!(response.files.len(), 5);
    assert_eq!(response.files[0], info("src", true, 4096));
    assert_eq!(response.files[4], info("notes", false, 0));
}

#[test]
fn response_of_nothing() {
    let response = ListFilesResponse::new(vec![]);
    assert_eq!(response, ListFilesResponse { files: vec![], total_files: 0, total_folders: 0 });
}
