use tempstack::model::disk::{Change, Disk};

#[test]
fn new_disk_is_empty() {
    let disk = Disk::new();
    assert!(!disk.present("/tmp"));
    assert!(!disk.is_dir("/tmp"));
    assert_eq!(disk.file_contents("/tmp/a"), None);
    assert!(disk.changes().is_empty());
}

#[test]
fn filling_a_disk_leaves_the_journal_empty() {
    let mut disk = Disk::new();
    disk.add_dir("/tmp");
    disk.add_file("/tmp/a", "one");
    assert!(disk.is_dir("/tmp"));
    assert!(disk.present("/tmp"));
    assert!(disk.present("/tmp/a"));
    assert!(!disk.is_dir("/tmp/a"));
    assert_eq!(disk.file_contents("/tmp/a"), Some("one".to_string()));
    assert_eq!(disk.file_contents("/tmp"), None);
    assert!(disk.changes().is_empty());
}

#[test]
fn add_file_replaces_what_was_noted_before() {
    let mut disk = Disk::new();
    disk.add_file("/a", "one");
    disk.add_file("/b", "two");
    disk.add_file("/a", "three");
    assert_eq!(disk.file_contents("/a"), Some("three".to_string()));
    assert_eq!(disk.file_contents("/b"), Some("two".to_string()));
}

#[test]
fn create_file_empties_a_file_that_is_there() {
    let mut disk = Disk::new();
    disk.add_file("/a", "one");
    disk.create_file("/a");
    disk.create_file("/b");
    assert_eq!(disk.file_contents("/a"), Some(String::new()));
    assert_eq!(disk.file_contents("/b"), Some(String::new()));
    assert_eq!(disk.changes(), &vec![
        Change::CreateFile { path: "/a".to_string() },
        Change::CreateFile { path: "/b".to_string() },
    ]);
}

#[test]
fn overwrite_file_discards_the_old_content() {
    let mut disk = Disk::new();
    disk.add_file("/a", "a long old content");
    disk.overwrite_file("/a", "new");
    disk.overwrite_file("/b", "made");
    assert_eq!(disk.file_contents("/a"), Some("new".to_string()));
    assert_eq!(disk.file_contents("/b"), Some("made".to_string()));
    assert_eq!(disk.changes(), &vec![
        Change::Overwrite { path: "/a".to_string(), text: "new".to_string() },
        Change::Overwrite { path: "/b".to_string(), text: "made".to_string() },
    ]);
}

#[test]
fn append_file_adds_behind_the_old_content() {
    let mut disk = Disk::new();
    disk.add_file("/a", "one");
    disk.append_file("/a", "two");
    disk.append_file("/a", "three");
    disk.append_file("/b", "fresh");
    assert_eq!(disk.file_contents("/a"), Some("onetwothree".to_string()));
    assert_eq!(disk.file_contents("/b"), Some("fresh".to_string()));
    assert_eq!(disk.changes(), &vec![
        Change::Append { path: "/a".to_string(), text: "two".to_string() },
        Change::Append { path: "/a".to_string(), text: "three".to_string() },
        Change::Append { path: "/b".to_string(), text: "fresh".to_string() },
    ]);
}

#[test]
fn create_dir_is_journalled() {
    let mut disk = Disk::new();
    disk.create_dir("/tmp/temp");
    assert!(disk.is_dir("/tmp/temp"));
    assert!(!disk.is_dir("/tmp"));
    assert_eq!(disk.changes(), &vec![Change::CreateDir { path: "/tmp/temp".to_string() }]);
}

#[test]
fn remove_dir_all_takes_the_directory_and_all_below() {
    let mut disk = Disk::new();
    disk.add_dir("/tmp");
    disk.add_dir("/tmp/temp");
    disk.add_dir("/tmp/temp/sub");
    disk.add_dir("/tmp/temporary");
    disk.add_file("/tmp/temp/temp_files", "x\n");
    disk.add_file("/tmp/temp/sub/deep", "d");
    disk.add_file("/tmp/tempfile", "sibling");
    disk.add_file("/tmp/other", "other");
    disk.remove_dir_all("/tmp/temp");
    assert!(!disk.present("/tmp/temp"));
    assert!(!disk.present("/tmp/temp/sub"));
    assert!(!disk.present("/tmp/temp/temp_files"));
    assert!(!disk.present("/tmp/temp/sub/deep"));
    assert!(disk.is_dir("/tmp"));
    assert!(disk.is_dir("/tmp/temporary"));
    assert_eq!(disk.file_contents("/tmp/tempfile"), Some("sibling".to_string()));
    assert_eq!(disk.file_contents("/tmp/other"), Some("other".to_string()));
    assert_eq!(disk.changes(), &vec![Change::RemoveDirAll { path: "/tmp/temp".to_string() }]);
}

#[test]
fn remove_dir_all_of_nothing_changes_only_the_journal() {
    let mut disk = Disk::new();
    disk.add_file("/a/b", "kept");
    disk.remove_dir_all("/c");
    disk.remove_dir_all("");
    assert_eq!(disk.file_contents("/a/b"), Some("kept".to_string()));
    assert_eq!(disk.changes().len(), 2);
}

#[test]
fn journal_keeps_the_order_of_the_changes() {
    let mut disk = Disk::new();
    disk.create_dir("/d");
    disk.create_file("/d/f");
    disk.append_file("/d/f", "a");
    disk.overwrite_file("/d/f", "b");
    disk.remove_dir_all("/d");
    assert_eq!(disk.changes(), &vec![
        Change::CreateDir { path: "/d".to_string() },
        Change::CreateFile { path: "/d/f".to_string() },
        Change::Append { path: "/d/f".to_string(), text: "a".to_string() },
        Change::Overwrite { path: "/d/f".to_string(), text: "b".to_string() },
        Change::RemoveDirAll { path: "/d".to_string() },
    ]);
    assert!(!disk.present("/d"));
    assert!(!disk.present("/d/f"));
}

#[test]
fn replaying_the_journal_on_a_copy_gives_the_same_disk() {
    let mut disk = Disk::new();
    disk.add_dir("/d");
    disk.add_file("/d/old", "old");
    let mut copy = Disk::new();
    copy.add_dir("/d");
    copy.add_file("/d/old", "old");
    disk.append_file("/d/old", "er");
    disk.create_dir("/d/e");
    disk.overwrite_file("/d/e/f", "f");
    disk.remove_dir_all("/d/e");
    disk.create_file("/g");
    for change in disk.changes() {
        match change {
            Change::CreateDir { path } => copy.create_dir(path),
            Change::CreateFile { path } => copy.create_file(path),
            Change::Overwrite { path, text } => copy.overwrite_file(path, text),
            Change::Append { path, text } => copy.append_file(path, text),
            Change::RemoveDirAll { path } => copy.remove_dir_all(path),
        }
    }
    for path in ["/d", "/d/old", "/d/e", "/d/e/f", "/g", "/h"] {
        assert_eq!(copy.present(path), disk.present(path));
        assert_eq!(copy.is_dir(path), disk.is_dir(path));
        assert_eq!(copy.file_contents(path), disk.file_contents(path));
    }
    assert_eq!(copy.changes(), disk.changes());
}
