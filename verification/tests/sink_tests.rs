use slack_emoji::sink::{FileOrDirectoryWriter, WriteTarget};

#[test]
fn dash() {
    let ford = FileOrDirectoryWriter::select("-", false);
    assert!(match ford {
        FileOrDirectoryWriter::StdOut => true,
        _ => false,
    });
    let cmd = ford.write("stdout-test", "test output");
    assert!(matches!(cmd.target, WriteTarget::Stream));
    assert_eq!(cmd.count, 12usize); // 11 chars + 1 newline
    assert_eq!(cmd.content, "test output\n");
}

#[test]
fn file() {
    let ford = FileOrDirectoryWriter::select("test-file", false);
    assert!(matches!(ford, FileOrDirectoryWriter::File));
    let cmd = ford.write("file-test", "test output");
    assert!(matches!(cmd.target, WriteTarget::SingleFile));
    assert_eq!(cmd.count, 12usize);
    assert_eq!(cmd.content, "test output\n");
}

#[test]
fn dir_with_slash() {
    let ford = FileOrDirectoryWriter::select("test-dir/", false);
    let dir = match &ford {
        FileOrDirectoryWriter::Directory { path } => path.clone(),
        _ => panic!("could not create writer"),
    };
    assert_eq!(dir, "test-dir/");
    let cmd = ford.write("test-a", "foo");
    match cmd.target {
        WriteTarget::DirectoryFile { dir, file_name } => {
            assert_eq!(dir, "test-dir/");
            assert_eq!(file_name, "test-a.json");
        }
        _ => panic!("expected a directory write"),
    }
    assert_eq!(cmd.content, "foo\n");
    let cmd2 = ford.write("test-b", "bar");
    match cmd2.target {
        WriteTarget::DirectoryFile { file_name, .. } => assert_eq!(file_name, "test-b.json"),
        _ => panic!("expected a directory write"),
    }
    assert_eq!(cmd2.content, "bar\n");
}

#[test]
fn dir_with_existing_dir() {
    let ford = FileOrDirectoryWriter::select("existing-test-dir", true);
    assert!(matches!(ford, FileOrDirectoryWriter::Directory { .. }));
    let cmd = ford.write("test-a", "foo");
    match cmd.target {
        WriteTarget::DirectoryFile { dir, file_name } => {
            assert_eq!(dir, "existing-test-dir");
            assert_eq!(file_name, "test-a.json");
        }
        _ => panic!("expected a directory write"),
    }
}

// Selection is a pure function of the token and the directory flag:
// `-` means the stream even when a directory of that name exists.
#[test]
fn selection_rule() {
    assert!(matches!(
        FileOrDirectoryWriter::select("-", true),
        FileOrDirectoryWriter::StdOut
    ));
    assert!(matches!(
        FileOrDirectoryWriter::select("out.json", false),
        FileOrDirectoryWriter::File
    ));
    assert!(matches!(
        FileOrDirectoryWriter::select("out.json", true),
        FileOrDirectoryWriter::Directory { .. }
    ));
    assert!(matches!(
        FileOrDirectoryWriter::select("workspace/", false),
        FileOrDirectoryWriter::Directory { .. }
    ));
}

// A directory write of ("a", "foo") yields a.json holding exactly "foo\n",
// and reports four bytes.
#[test]
fn dir_write_accounting() {
    let ford = FileOrDirectoryWriter::select("d/", false);
    let cmd = ford.write("a", "foo");
    match cmd.target {
        WriteTarget::DirectoryFile { file_name, .. } => assert_eq!(file_name, "a.json"),
        _ => panic!("expected a directory write"),
    }
    assert_eq!(cmd.content, "foo\n");
    assert_eq!(cmd.count, 4usize);
}

// Stream and single-file writes report the text length plus one.
#[test]
fn write_count_is_len_plus_one() {
    let stream = FileOrDirectoryWriter::select("-", false);
    assert_eq!(stream.write("n", "").count, 1usize);
    assert_eq!(stream.write("n", "xyz").count, 4usize);
    let single = FileOrDirectoryWriter::select("f", false);
    assert_eq!(single.write("n", "0123456789").count, 11usize);
}
