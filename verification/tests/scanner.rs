use medslice::scanner::{
    files_to_load, is_hidden, open_folder, FolderEntry, Listing, ScanMode, SeriesCatalog,
};

fn entry(name: &str, is_dir: bool) -> Option<FolderEntry> {
    Some(FolderEntry { name: name.to_string(), path: format!("/data/{}", name), is_dir })
}

#[test]
fn hidden_entries_are_left_out() {
    let listing = Listing::Directory(vec![
        entry(".DS_Store", false),
        entry("a.dcm", false),
        entry("b.dcm", false),
    ]);
    let catalog = open_folder(&listing, ScanMode::AnyEntry);
    assert_eq!(catalog.names(), vec!["a.dcm", "b.dcm"]);
    assert_eq!(catalog.len(), 2);
    assert_eq!(catalog.path_of(&"a.dcm".to_string()), Some(&"/data/a.dcm".to_string()));
    assert_eq!(catalog.path_of(&"b.dcm".to_string()), Some(&"/data/b.dcm".to_string()));
    assert_eq!(catalog.path_of(&".DS_Store".to_string()), None);
}

#[test]
fn a_scan_for_series_takes_folders_only() {
    let listing = Listing::Directory(vec![
        entry("t1", true),
        entry("notes.txt", false),
        entry(".git", true),
        entry("t2", true),
    ]);
    let catalog = open_folder(&listing, ScanMode::SubFolders);
    assert_eq!(catalog.names(), vec!["t1", "t2"]);
    let catalog = open_folder(&listing, ScanMode::AnyEntry);
    assert_eq!(catalog.names(), vec!["t1", "notes.txt", "t2"]);
}

#[test]
fn entries_that_could_not_be_read_are_left_out() {
    let listing = Listing::Directory(vec![None, entry("a", false), None, entry("b", false)]);
    let catalog = open_folder(&listing, ScanMode::AnyEntry);
    assert_eq!(catalog.names(), vec!["a", "b"]);
}

#[test]
fn anything_but_a_folder_has_no_series() {
    let file = Listing::File(FolderEntry {
        name: "a".to_string(),
        path: "/data/a".to_string(),
        is_dir: false,
    });
    assert_eq!(open_folder(&file, ScanMode::AnyEntry).len(), 0);
    assert_eq!(open_folder(&Listing::Nothing, ScanMode::AnyEntry).len(), 0);
    assert_eq!(open_folder(&Listing::Directory(Vec::new()), ScanMode::AnyEntry).len(), 0);
}

#[test]
fn names_that_start_with_a_dot_are_hidden() {
    assert!(is_hidden(".DS_Store"));
    assert!(is_hidden("."));
    assert!(is_hidden(".."));
    assert!(!is_hidden(""));
    assert!(!is_hidden("a.dcm"));
    assert!(!is_hidden("a."));
}

#[test]
fn the_last_path_of_a_name_is_found() {
    let mut catalog = SeriesCatalog::new();
    catalog.push("a".to_string(), "/one/a".to_string());
    catalog.push("b".to_string(), "/one/b".to_string());
    catalog.push("a".to_string(), "/two/a".to_string());
    assert_eq!(catalog.len(), 3);
    assert_eq!(catalog.names(), vec!["a", "b", "a"]);
    assert_eq!(catalog.name_at(1), "b");
    assert_eq!(catalog.path_of(&"a".to_string()), Some(&"/two/a".to_string()));
    assert_eq!(catalog.path_of(&"b".to_string()), Some(&"/one/b".to_string()));
    assert_eq!(catalog.path_of(&"c".to_string()), None);
}

#[test]
fn a_load_goes_through_every_readable_child() {
    let listing = Listing::Directory(vec![
        entry(".DS_Store", false),
        None,
        entry("b", false),
        entry("a", true),
    ]);
    let files = files_to_load(listing);
    let names: Vec<&str> = files.iter().map(|f| f.name.as_str()).collect();
    assert_eq!(names, vec![".DS_Store", "b", "a"]);
    assert_eq!(files[1].path, "/data/b");
}

#[test]
fn a_load_of_a_file_goes_through_the_file() {
    let file = Listing::File(FolderEntry {
        name: "a".to_string(),
        path: "/data/a".to_string(),
        is_dir: false,
    });
    let files = files_to_load(file);
    assert_eq!(files.len(), 1);
    assert_eq!(files[0].name, "a");
    assert!(files_to_load(Listing::Nothing).is_empty());
}
