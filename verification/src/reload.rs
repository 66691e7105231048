//! Rebuilding the record list from a directory of saved per-record files:
//! only regular `.json` files count, and a file that cannot be read or
//! parsed is skipped — counted for a diagnostic — without failing the run.

use vstd::prelude::*;
use crate::record::{Emoji, EmojiView};
use crate::parse::{parse_record, p_record};
use crate::sort::views_of;

verus! {

/// One directory entry as the shell hands it in: the entry's file name,
/// whether it is a regular file, and its text when it could be read.
pub struct SavedFile {
    pub name: String,
    pub is_file: bool,
    pub content: Option<String>,
}

/// The mathematical value of one directory entry.
pub ghost struct SavedFileView {
    pub name: Seq<char>,
    pub is_file: bool,
    pub content: Option<Seq<char>>,
}

impl View for SavedFile {
    type V = SavedFileView;

    open spec fn view(&self) -> SavedFileView {
        SavedFileView {
            name: self.name@,
            is_file: self.is_file,
            content: (match self.content {
                Some(ref t) => Some(t@),
                None => None,
            }),
        }
    }
}

/// A name the reload path considers: it ends in `.json`.
pub open spec fn json_named(name: Seq<char>) -> bool {
    name.len() >= 5 && name.subrange(name.len() - 5, name.len() as int) == ".json"@
}

/// What one entry contributes: a record when it is a regular `.json` file
/// whose text reads back as a record, nothing otherwise.
pub open spec fn try_reload(f: SavedFileView) -> Option<EmojiView> {
    if f.is_file && json_named(f.name) {
        match f.content {
            Some(text) => p_record(text),
            None => None,
        }
    } else {
        None
    }
}

/// The records a directory listing yields, in listing order.
pub open spec fn reload_views(entries: Seq<SavedFileView>) -> Seq<EmojiView>
    decreases entries.len(),
{
    if entries.len() == 0 {
        Seq::<EmojiView>::empty()
    } else {
        reload_views(entries.drop_last()) + (match try_reload(entries.last()) {
            Some(r) => seq![r],
            None => Seq::<EmojiView>::empty(),
        })
    }
}

/// How many `.json` files the listing had to skip: regular files named for
/// the format whose text was missing or unreadable as a record.
pub open spec fn reload_skips(entries: Seq<SavedFileView>) -> int
    decreases entries.len(),
{
    if entries.len() == 0 {
        0
    } else {
        reload_skips(entries.drop_last()) + (if entries.last().is_file && json_named(
            entries.last().name,
        ) && try_reload(entries.last()) is None {
            1int
        } else {
            0int
        })
    }
}

/// True when the file name ends in `.json`.
fn ends_in_json(name: &str) -> (r: bool)
    ensures
        r == json_named(name@),
{
    let n = name.unicode_len();
    proof {
        reveal_strlit(".json");
    }
    if n < 5 {
        return false;
    }
    let r = name.get_char(n - 5) == '.' && name.get_char(n - 4) == 'j' && name.get_char(n - 3)
        == 's' && name.get_char(n - 2) == 'o' && name.get_char(n - 1) == 'n';
    proof {
        if r {
            assert(name@.subrange(n - 5, n as int) =~= ".json"@);
        } else {
            if name@.subrange(n - 5, n as int) == ".json"@ {
                assert(name@.subrange(n - 5, n as int)[0] == name@[n - 5]);
                assert(name@.subrange(n - 5, n as int)[1] == name@[n - 4]);
                assert(name@.subrange(n - 5, n as int)[2] == name@[n - 3]);
                assert(name@.subrange(n - 5, n as int)[3] == name@[n - 2]);
                assert(name@.subrange(n - 5, n as int)[4] == name@[n - 1]);
            }
        }
    }
    r
}

/// Walks a directory listing in order and rebuilds the record list: one
/// record per readable `.json` regular file, every failing file skipped
/// and counted, never aborting the whole operation.
pub fn reload_records(entries: &Vec<SavedFile>) -> (r: (Vec<Emoji>, usize))
    ensures
        views_of(r.0@) == reload_views(entries@.map_values(|f: SavedFile| f@)),
        r.1 as int == reload_skips(entries@.map_values(|f: SavedFile| f@)),
{
    let ghost all: Seq<SavedFileView> = entries@.map_values(|f: SavedFile| f@);
    let mut out: Vec<Emoji> = Vec::new();
    let mut skips: usize = 0;
    let mut i: usize = 0;
    while i < entries.len()
        invariant
            i <= entries@.len(),
            all == entries@.map_values(|f: SavedFile| f@),
            views_of(out@) == reload_views(all.subrange(0, i as int)),
            skips as int == reload_skips(all.subrange(0, i as int)),
            skips <= i,
        decreases entries@.len() - i,
    {
        proof {
            assert(all.subrange(0, i + 1).drop_last() =~= all.subrange(0, i as int));
            assert(all.subrange(0, i + 1).last() == all[i as int]);
        }
        let entry = &entries[i];
        if entry.is_file && ends_in_json(entry.name.as_str()) {
            match entry.content {
                Some(ref text) => {
                    match parse_record(text.as_str()) {
                        Some(rec) => {
                            out.push(rec);
                            proof {
                                assert(views_of(out@) =~= reload_views(all.subrange(0, i + 1)));
                            }
                        },
                        None => {
                            skips = skips + 1;
                        },
                    }
                },
                None => {
                    skips = skips + 1;
                },
            }
        }
        proof {
            assert(views_of(out@) =~= reload_views(all.subrange(0, i + 1)));
        }
        i = i + 1;
    }
    proof {
        assert(all.subrange(0, all.len() as int) =~= all);
    }
    (out, skips)
}

} // verus!
