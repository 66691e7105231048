//! The output sink: one `write` capability with three variants, selected
//! once from the destination token before any write. The sink itself is
//! pure: each `write` yields a command (where to put which bytes) that the
//! unverified shell carries out, plus the byte count owed to the caller.

use vstd::prelude::*;
use vstd::string::StringSliceAdditionalSpecFns;

verus! {

/// Where the serialized text of one record goes.
pub enum FileOrDirectoryWriter {
    /// A fixed output stream, such as standard output.
    StdOut,
    /// One file, opened (create-or-truncate) by the shell at setup.
    File,
    /// One file per record, named `<name>.json`, inside this directory.
    Directory { path: String },
}

/// The concrete target of one write command.
pub enum WriteTarget {
    /// Append to the fixed output stream.
    Stream,
    /// Append to the single file opened at setup.
    SingleFile,
    /// Overwrite `<dir>/<file_name>`, creating `dir` first if absent.
    DirectoryFile { dir: String, file_name: String },
}

/// One write, fully determined: the exact bytes, their destination, and
/// the count reported to the caller on success.
pub struct WriteCommand {
    pub target: WriteTarget,
    pub content: String,
    pub count: usize,
}

/// The selection rule: `-` selects the stream; an existing directory or a
/// trailing path separator selects the directory variant; anything else
/// selects a single file.
pub open spec fn selects_stream(token: Seq<char>) -> bool {
    token == "-"@
}

/// True when the token ends in the path separator.
pub open spec fn ends_in_separator(token: Seq<char>) -> bool {
    token.len() > 0 && token.last() == '/'
}

impl FileOrDirectoryWriter {
    /// Chooses the sink variant, a pure function of the destination token
    /// and of whether the token names an existing directory at setup time.
    /// The choice is made once and never re-evaluated.
    pub fn select(token: &str, is_existing_dir: bool) -> (r: FileOrDirectoryWriter)
        ensures
            selects_stream(token@) ==> r is StdOut,
            !selects_stream(token@) && (is_existing_dir || ends_in_separator(token@)) ==> (match r {
                FileOrDirectoryWriter::Directory { path } => path@ == token@,
                _ => false,
            }),
            !selects_stream(token@) && !is_existing_dir && !ends_in_separator(token@) ==> r is File,
    {
        let n = token.unicode_len();
        proof {
            reveal_strlit("-");
        }
        if n == 1 && token.get_char(0) == '-' {
            proof {
                assert(token@ =~= "-"@);
            }
            FileOrDirectoryWriter::StdOut
        } else if is_existing_dir || (n > 0 && token.get_char(n - 1) == '/') {
            proof {
                assert(token@ != "-"@) by {
                    if token@ == "-"@ {
                        assert(token@.len() == 1 && token@[0] == '-');
                    }
                }
            }
            FileOrDirectoryWriter::Directory { path: String::from_str(token) }
        } else {
            proof {
                assert(token@ != "-"@) by {
                    if token@ == "-"@ {
                        assert(token@.len() == 1 && token@[0] == '-');
                    }
                }
            }
            FileOrDirectoryWriter::File
        }
    }

    /// Turns one record's serialized text into a write command. The content
    /// is always the text plus a trailing newline; the reported count is the
    /// text's byte length plus one; the target follows the variant, with the
    /// directory variant writing `<name>.json`.
    pub fn write(&self, name: &str, serialized: &str) -> (r: WriteCommand)
        requires
            serialized.spec_bytes().len() < usize::MAX,
        ensures
            r.count == serialized.spec_bytes().len() + 1,
            r.content@ == serialized@.push('\n'),
            self is StdOut ==> r.target is Stream,
            self is File ==> r.target is SingleFile,
            (match self {
                FileOrDirectoryWriter::Directory { path } => (match r.target {
                    WriteTarget::DirectoryFile { dir, file_name } => dir@ == path@ && file_name@
                        == name@ + ".json"@,
                    _ => false,
                }),
                _ => true,
            }),
    {
        let count = serialized.len() + 1;
        let content = String::from_str(serialized).concat("\n");
        proof {
            reveal_strlit("\n");
            assert(content@ =~= serialized@.push('\n'));
        }
        let target = match self {
            FileOrDirectoryWriter::StdOut => WriteTarget::Stream,
            FileOrDirectoryWriter::File => WriteTarget::SingleFile,
            FileOrDirectoryWriter::Directory { path } => {
                let file_name = String::from_str(name).concat(".json");
                WriteTarget::DirectoryFile { dir: path.clone(), file_name }
            },
        };
        WriteCommand { target, content, count }
    }
}

} // verus!
