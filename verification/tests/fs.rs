use phoenix::fs::{Path, Root};
use phoenix::std_fs;
use phoenix::std_fs::{DirEntry, FileType, FsError, Metadata, RamHandle, ReadDir, SeekFrom, FILE_TYPE_DIRECTORY, FILE_TYPE_FILE};

#[test]
fn shared_paths_split_without_the_slash() {
    let (root, stem) = Path::new(":host/dir/file.txt").split();
    assert_eq!(root, Root::Host);
    assert_eq!(stem.as_str(), "dir/file.txt");
    let (root, stem) = Path::new(":initrd/a").split();
    assert_eq!(root, Root::Initrd);
    assert_eq!(stem.as_str(), "a");
    let (root, stem) = Path::new(":nowhere/a").split();
    assert_eq!(root, Root::Unknown);
    assert_eq!(stem.as_str(), "a");
    let (root, stem) = Path::new(":host").split();
    assert_eq!(root, Root::Host);
    assert_eq!(stem.as_str(), "");
    let (root, stem) = Path::new("relative/path").split();
    assert_eq!(root, Root::Relative);
    assert_eq!(stem.as_str(), "relative/path");
    assert!(Path::new(":x").absolute());
    assert!(!Path::new("x:").absolute());
    assert!(!Path::new("").absolute());
}

#[test]
fn shared_paths_handle_non_ascii_text() {
    let (root, stem) = Path::new(":host/répertoire/fichier").split();
    assert_eq!(root, Root::Host);
    assert_eq!(stem.as_str(), "répertoire/fichier");
}

#[test]
fn std_paths_split_with_the_slash() {
    let (root, stem) = std_fs::Path::new(":initrd/bin/init").split();
    assert_eq!(root, std_fs::Root::Initrd);
    assert_eq!(stem.as_str(), "/bin/init");
    let (root, stem) = std_fs::Path::new(":host").split();
    assert_eq!(root, std_fs::Root::Host);
    assert_eq!(stem.as_str(), "");
    let (root, stem) = std_fs::Path::new("a/b").split();
    assert_eq!(root, std_fs::Root::Relative);
    assert_eq!(stem.as_str(), "a/b");
}

#[test]
fn file_types() {
    let dir = FileType::from_flags(FILE_TYPE_DIRECTORY);
    assert!(dir.is_dir());
    assert!(!dir.is_file());
    assert!(!dir.is_symlink());
    let file = FileType::from_flags(FILE_TYPE_FILE);
    assert!(file.is_file());
    let link = FileType::from_flags(0x04);
    assert!(link.is_symlink());
    assert_eq!(Metadata::new(file).file_type(), file);
}

#[test]
fn directory_entries() {
    let e = DirEntry::new(String::from("/bin/init"), Metadata::new(FileType::from_flags(FILE_TYPE_FILE)));
    assert_eq!(e.path(), "/bin/init");
    assert_eq!(e.file_name(), "init");
    assert!(e.file_type().unwrap().is_file());
    assert!(e.metadata().unwrap().file_type().is_file());
    let e = DirEntry::new(String::from("plain"), Metadata::new(FileType::from_flags(FILE_TYPE_DIRECTORY)));
    assert_eq!(e.file_name(), "plain");
    let e = DirEntry::new(String::from("dir/"), Metadata::new(FileType::from_flags(FILE_TYPE_DIRECTORY)));
    assert_eq!(e.file_name(), "");
}

#[test]
fn read_dir_lists_subdirectories_then_files() {
    let mut dir = ReadDir::new(String::from("/etc"), vec![String::from("conf.d")], vec![String::from("hosts"), String::from("passwd")]);
    let e = dir.next().unwrap();
    assert_eq!(e.path(), "/etc/conf.d");
    assert!(e.file_type().unwrap().is_dir());
    let e = dir.next().unwrap();
    assert_eq!(e.path(), "/etc/hosts");
    assert!(e.file_type().unwrap().is_file());
    let e = dir.next().unwrap();
    assert_eq!(e.path(), "/etc/passwd");
    assert!(dir.next().is_none());
    assert!(dir.next().is_none());
}

#[test]
fn ram_files_read_and_seek() {
    let contents = b"0123456789";
    let mut file = RamHandle::new(contents);
    let mut buf = [0u8; 4];
    assert_eq!(file.read(&mut buf), 4);
    assert_eq!(&buf, b"0123");
    assert_eq!(file.seek(SeekFrom::Current(2)).ok(), Some(6));
    assert_eq!(file.read(&mut buf), 4);
    assert_eq!(&buf, b"6789");
    assert_eq!(file.read(&mut buf), 0);
    assert_eq!(file.seek(SeekFrom::Start(100)).ok(), Some(10));
    assert_eq!(file.seek(SeekFrom::End(-3)).ok(), Some(7));
    let mut big = [9u8; 5];
    assert_eq!(file.read(&mut big), 3);
    assert_eq!(&big, b"789\x09\x09");
    assert_eq!(file.seek(SeekFrom::End(5)).ok(), Some(10));
    assert_eq!(file.seek(SeekFrom::Start(1)).ok(), Some(1));
    assert_eq!(file.seek(SeekFrom::Current(100)).ok(), Some(10));
}

#[test]
fn ram_files_refuse_negative_offsets() {
    let mut file = RamHandle::new(b"abc");
    let err: FsError = file.seek(SeekFrom::End(-4)).err().unwrap();
    assert_eq!(err.desc(), "attempted to seek to a negative file offset");
    assert_eq!(file.seek(SeekFrom::Current(0)).ok(), Some(0));
    assert!(file.seek(SeekFrom::Current(-1)).is_err());
    let mut buf = [0u8; 1];
    assert_eq!(file.read(&mut buf), 1);
    assert_eq!(&buf, b"a");
}
