use timelapse::cleanup::{clean_folder, is_frame_file, FolderEntry};

fn entry(name: &str, is_file: bool) -> FolderEntry {
    FolderEntry { name: name.to_string(), is_file }
}

#[test]
fn cleanup_removes_only_frame_files() {
    let entries = vec![
        entry("img-00000001.jpg", true),
        entry("pointer.jpg", false),
        entry("img-00000002.jpg", true),
        entry("subdir", false),
        entry("notes.txt", true),
    ];
    assert_eq!(clean_folder(&entries), vec!["img-00000001.jpg".to_string(), "img-00000002.jpg".to_string()]);
}

#[test]
fn cleanup_of_empty_folder() {
    assert!(clean_folder(&vec![]).is_empty());
}

#[test]
fn extension_match_ignores_case() {
    assert!(is_frame_file(&entry("a.JPG", true)));
    assert!(is_frame_file(&entry("a.Jpg", true)));
    assert!(!is_frame_file(&entry(".jpg", true)));
    assert!(!is_frame_file(&entry("a.jpeg", true)));
    assert!(!is_frame_file(&entry("a.jpg.bak", true)));
    assert!(!is_frame_file(&entry("dir.jpg", false)));
}
