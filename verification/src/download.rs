//! The bulk-download planner: builds the URL/destination pairs from the
//! record list and decides, pair by pair, whether to skip, what to fetch,
//! when the next request may go out, and what to do with each outcome. The
//! unverified shell performs the GETs, the file writes and the sleeps.

use vstd::prelude::*;
use crate::record::{Emoji, EmojiView};
use crate::sort::views_of;

verus! {

/// The per-request timeout, in seconds, for one asset download.
pub const DOWNLOAD_TIMEOUT_SECS: u64 = 15;

/// The minimum spacing between two requests, in milliseconds: a fixed
/// ceiling of 20 requests per second.
pub const MIN_REQUEST_INTERVAL_MS: u64 = 50;

/// True when `c` occurs in `s`.
pub open spec fn contains_char(s: Seq<char>, c: char) -> bool {
    exists|i: int| 0 <= i < s.len() && s[i] == c
}

/// The suffix of `s` after the last occurrence of `c`; all of `s` when `c`
/// does not occur.
pub open spec fn after_last(s: Seq<char>, c: char) -> Seq<char>
    decreases s.len(),
{
    if s.len() == 0 {
        s
    } else if s.last() == c {
        Seq::<char>::empty()
    } else {
        after_last(s.drop_last(), c) + seq![s.last()]
    }
}

/// The file extension a URL dictates: what follows the last `.` of the
/// URL's trailing path segment, or `png` when the segment has no `.`.
pub open spec fn ext_of(url: Seq<char>) -> Seq<char> {
    let seg = after_last(url, '/');
    if contains_char(seg, '.') {
        after_last(seg, '.')
    } else {
        "png"@
    }
}

/// The destination path for one record's asset: the base directory, the
/// record's name, and the extension the URL dictates.
pub open spec fn dest_for(base: Seq<char>, name: Seq<char>, url: Seq<char>) -> Seq<char> {
    base + "/"@ + name + "."@ + ext_of(url)
}

proof fn lemma_after_last_at(s: Seq<char>, c: char, k: int)
    requires
        0 <= k < s.len(),
        s[k] == c,
        forall|m: int| k < m < s.len() ==> s[m] != c,
    ensures
        after_last(s, c) == s.subrange(k + 1, s.len() as int),
    decreases s.len(),
{
    if k == s.len() - 1 {
        assert(s.subrange(k + 1, s.len() as int) =~= Seq::<char>::empty());
    } else {
        assert(s.last() != c);
        lemma_after_last_at(s.drop_last(), c, k);
        assert(s.drop_last().subrange(k + 1, s.len() - 1) =~= s.subrange(k + 1, s.len() - 1));
        assert(s.subrange(k + 1, s.len() - 1) + seq![s.last()] =~= s.subrange(
            k + 1,
            s.len() as int,
        ));
    }
}

proof fn lemma_after_last_absent(s: Seq<char>, c: char)
    requires
        !contains_char(s, c),
    ensures
        after_last(s, c) == s,
    decreases s.len(),
{
    if s.len() > 0 {
        assert(forall|i: int| 0 <= i < s.drop_last().len() ==> s.drop_last()[i] == s[i]);
        lemma_after_last_absent(s.drop_last(), c);
        assert(s.drop_last() + seq![s.last()] =~= s);
    }
}

/// The suffix of `s` after the last occurrence of `c`, or `None` when `c`
/// does not occur in `s`.
fn suffix_after_last(s: &str, c: char) -> (r: Option<String>)
    ensures
        (match r {
            Some(x) => contains_char(s@, c) && x@ == after_last(s@, c),
            None => !contains_char(s@, c),
        }),
{
    let n = s.unicode_len();
    let mut found: bool = false;
    let mut at: usize = 0;
    let mut i: usize = 0;
    while i < n
        invariant
            n == s@.len(),
            i <= n,
            found ==> at < i && s@[at as int] == c && (forall|m: int| at < m < i ==> s@[m] != c),
            !found ==> (forall|m: int| 0 <= m < i ==> s@[m] != c),
        decreases n - i,
    {
        if s.get_char(i) == c {
            found = true;
            at = i;
        }
        i = i + 1;
    }
    if found {
        let tail = s.substring_char(at + 1, n);
        proof {
            lemma_after_last_at(s@, c, at as int);
        }
        Some(String::from_str(tail))
    } else {
        proof {
            lemma_after_last_absent(s@, c);
        }
        None
    }
}

/// Computes the extension the URL dictates; `png` when the trailing path
/// segment carries none.
pub fn url_extension(url: &str) -> (r: String)
    ensures
        r@ == ext_of(url@),
{
    let seg: String = match suffix_after_last(url, '/') {
        Some(t) => t,
        None => {
            proof {
                lemma_after_last_absent(url@, '/');
            }
            String::from_str(url)
        },
    };
    match suffix_after_last(seg.as_str(), '.') {
        Some(e) => e,
        None => String::from_str("png"),
    }
}

/// One asset to pull: where from, and where the bytes belong.
pub struct DownloadPair {
    pub url: String,
    pub dest: String,
}

impl View for DownloadPair {
    type V = (Seq<char>, Seq<char>);

    open spec fn view(&self) -> (Seq<char>, Seq<char>) {
        (self.url@, self.dest@)
    }
}

/// The pair list a record list gives rise to, in list order. Alias records
/// point at another emoji rather than carrying an asset of their own, so
/// they yield no pair: downloading their URL would fetch a bogus asset.
pub open spec fn pairs_for(base: Seq<char>, rs: Seq<EmojiView>) -> Seq<(Seq<char>, Seq<char>)>
    decreases rs.len(),
{
    if rs.len() == 0 {
        Seq::<(Seq<char>, Seq<char>)>::empty()
    } else if rs.last().is_alias != 0 {
        pairs_for(base, rs.drop_last())
    } else {
        pairs_for(base, rs.drop_last()).push(
            (rs.last().url, dest_for(base, rs.last().name, rs.last().url)),
        )
    }
}

/// Builds the URL/destination pairs for one download run: one pair per
/// non-alias record, destination under `base`. Alias records are skipped
/// deliberately — see `pairs_for`.
pub fn build_pairs(records: &Vec<Emoji>, base: &str) -> (r: Vec<DownloadPair>)
    ensures
        r@.map_values(|p: DownloadPair| p@) == pairs_for(base@, views_of(records@)),
{
    let mut out: Vec<DownloadPair> = Vec::new();
    let ghost all: Seq<EmojiView> = views_of(records@);
    let mut i: usize = 0;
    while i < records.len()
        invariant
            i <= records@.len(),
            all == views_of(records@),
            out@.map_values(|p: DownloadPair| p@) == pairs_for(base@, all.subrange(0, i as int)),
        decreases records@.len() - i,
    {
        proof {
            assert(all.subrange(0, i + 1).drop_last() =~= all.subrange(0, i as int));
            assert(all.subrange(0, i + 1).last() == all[i as int]);
        }
        if records[i].is_alias == 0 {
            let ext = url_extension(records[i].url.as_str());
            let mut dest = String::from_str(base);
            dest.append("/");
            dest.append(records[i].name.as_str());
            dest.append(".");
            dest.append(ext.as_str());
            let pair = DownloadPair { url: records[i].url.clone(), dest };
            out.push(pair);
            proof {
                assert(out@.map_values(|p: DownloadPair| p@) =~= pairs_for(
                    base@,
                    all.subrange(0, i + 1),
                ));
            }
        }
        i = i + 1;
    }
    proof {
        assert(all.subrange(0, all.len() as int) =~= all);
    }
    out
}

/// What the shell must do next for the current pair.
pub enum DownloadStep {
    /// Every pair has been considered.
    Done,
    /// The destination already holds the asset and force is off: no
    /// request is issued for this pair.
    Skip { dest: String },
    /// Issue a GET for `url`, but not before the instant `not_before_ms`;
    /// on success the body belongs at `dest`.
    Fetch { url: String, dest: String, not_before_ms: u64 },
}

/// The deadline one slot later, stopping at the top of the clock's range.
pub open spec fn advanced_deadline(d: u64) -> u64 {
    if d + MIN_REQUEST_INTERVAL_MS <= u64::MAX {
        (d + MIN_REQUEST_INTERVAL_MS) as u64
    } else {
        u64::MAX
    }
}

/// Walks the pair list in order, one decision per pair. Requests are paced
/// by deadline accumulation: the machine tracks the end of the last
/// enforced wait slot, each fetch must wait until one interval past it,
/// and the slot then advances by exactly one interval — skipped pairs
/// neither wait nor advance it, so an always-skipping run carries no
/// rate-limit drag.
pub struct Downloader {
    pairs: Vec<DownloadPair>,
    force: bool,
    next: usize,
    deadline_ms: u64,
}

impl Downloader {
    /// The pair list being walked.
    pub closed spec fn pairs_view(self) -> Seq<(Seq<char>, Seq<char>)> {
        self.pairs@.map_values(|p: DownloadPair| p@)
    }

    /// How many pairs have been decided.
    pub closed spec fn pos(self) -> int {
        self.next as int
    }

    /// Whether present destinations are re-downloaded.
    pub closed spec fn is_forced(self) -> bool {
        self.force
    }

    /// The end of the last enforced wait slot, in milliseconds.
    pub closed spec fn deadline(self) -> u64 {
        self.deadline_ms
    }

    /// The position never runs past the list.
    #[verifier::type_invariant]
    pub closed spec fn wf(self) -> bool {
        self.next <= self.pairs@.len()
    }

    /// A fresh run over `pairs`: nothing decided, the first slot anchored
    /// at the current instant.
    pub fn new(pairs: Vec<DownloadPair>, force: bool, now_ms: u64) -> (r: Downloader)
        ensures
            r.wf(),
            r.pairs_view() == pairs@.map_values(|p: DownloadPair| p@),
            r.pos() == 0,
            r.is_forced() == force,
            r.deadline() == now_ms,
    {
        Downloader { pairs, force, next: 0, deadline_ms: now_ms }
    }

    /// The destination of the pair to be decided next, so the shell can
    /// report whether a regular file already sits there.
    pub fn current_dest(&self) -> (r: Option<&String>)
        ensures
            (match r {
                Some(d) => self.pos() < self.pairs_view().len() && d@ == self.pairs_view()[
                    self.pos()
                ].1,
                None => self.pos() == self.pairs_view().len(),
            }),
    {
        proof {
            use_type_invariant(self);
        }
        if self.next < self.pairs.len() {
            Some(&self.pairs[self.next].dest)
        } else {
            None
        }
    }

    /// Decides the current pair and moves past it. With force off, a
    /// destination that already exists as a regular file is skipped and no
    /// request is issued; otherwise the pair is fetched, waiting out the
    /// current slot, and the slot advances by one interval.
    pub fn step(&mut self, dest_is_file: bool) -> (r: DownloadStep)
        ensures
            final(self).pairs_view() == old(self).pairs_view(),
            final(self).is_forced() == old(self).is_forced(),
            (match r {
                DownloadStep::Done => {
                    &&& old(self).pos() == old(self).pairs_view().len()
                    &&& final(self).pos() == old(self).pos()
                    &&& final(self).deadline() == old(self).deadline()
                },
                DownloadStep::Skip { dest } => {
                    &&& old(self).pos() < old(self).pairs_view().len()
                    &&& dest_is_file
                    &&& !old(self).is_forced()
                    &&& dest@ == old(self).pairs_view()[old(self).pos()].1
                    &&& final(self).pos() == old(self).pos() + 1
                    &&& final(self).deadline() == old(self).deadline()
                },
                DownloadStep::Fetch { url, dest, not_before_ms } => {
                    &&& old(self).pos() < old(self).pairs_view().len()
                    &&& (old(self).is_forced() || !dest_is_file)
                    &&& url@ == old(self).pairs_view()[old(self).pos()].0
                    &&& dest@ == old(self).pairs_view()[old(self).pos()].1
                    &&& not_before_ms == advanced_deadline(old(self).deadline())
                    &&& final(self).deadline() == not_before_ms
                    &&& final(self).pos() == old(self).pos() + 1
                },
            }),
    {
        proof {
            use_type_invariant(&*self);
        }
        if self.next >= self.pairs.len() {
            return DownloadStep::Done;
        }
        let pair = &self.pairs[self.next];
        let dest = pair.dest.clone();
        if !self.force && dest_is_file {
            self.next = self.next + 1;
            DownloadStep::Skip { dest }
        } else {
            let url = pair.url.clone();
            let not_before_ms = if self.deadline_ms <= u64::MAX - MIN_REQUEST_INTERVAL_MS {
                self.deadline_ms + MIN_REQUEST_INTERVAL_MS
            } else {
                u64::MAX
            };
            self.deadline_ms = not_before_ms;
            self.next = self.next + 1;
            DownloadStep::Fetch { url, dest, not_before_ms }
        }
    }
}

/// What the shell must do with one GET's outcome.
pub enum AssetAction {
    /// The GET succeeded: the body replaces whatever sits at `dest`.
    Write { dest: String, body: Vec<u8> },
    /// The GET failed: report `note` and move on. The destination is not
    /// to be touched, so a failed fetch leaves it absent or as it was.
    Report { dest: String, note: String },
}

/// The decision over one GET's outcome: a success writes the body, any
/// failure (network, timeout, bad HTTP status) is reported for this one
/// pair and never aborts the batch.
pub fn on_fetch_outcome(dest: String, outcome: Result<Vec<u8>, String>) -> (r: AssetAction)
    ensures
        (match outcome {
            Ok(body) => (match r {
                AssetAction::Write { dest: d, body: b } => d@ == dest@ && b@ == body@,
                _ => false,
            }),
            Err(note) => (match r {
                AssetAction::Report { dest: d, note: n } => d@ == dest@ && n@ == "Could not request "@
                    + dest@ + ": "@ + note@,
                _ => false,
            }),
        }),
{
    match outcome {
        Ok(body) => AssetAction::Write { dest, body },
        Err(e) => {
            let mut note = String::from_str("Could not request ");
            note.append(dest.as_str());
            note.append(": ");
            note.append(e.as_str());
            AssetAction::Report { dest, note }
        },
    }
}

} // verus!
