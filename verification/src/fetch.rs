//! The two-phase paginated-metadata protocol: one cheap call discovers the
//! catalog size, a second oversized page fetches the whole catalog. The
//! decisions between the two round trips live here; the unverified shell
//! performs the HTTP calls and hands the parsed responses back as plain
//! values.

use vstd::prelude::*;
use crate::record::{Emoji, ExtraField};
use crate::sort::{sort_by_created, sorted_by_created, stable_reorder_of, views_of};

verus! {

/// The per-request timeout, in seconds, for the two metadata calls.
pub const METADATA_TIMEOUT_SECS: u64 = 10;

/// One page request: which page, and how many records it should hold.
pub struct PageRequest {
    pub page: u32,
    pub count: u32,
}

/// One parsed page response. When `ok` is false the record list must not
/// be trusted; the unmodeled members are the only reliable error payload.
pub struct PageResponse {
    pub ok: bool,
    pub total_count: u32,
    pub paging_count: u32,
    pub emoji: Vec<Emoji>,
    pub unknown_fields: Vec<ExtraField>,
}

/// Why a fetch failed: the service said no, or it could not be reached.
#[derive(Debug)]
pub enum FetchError {
    /// The service answered but signaled failure. The unmodeled members of
    /// its response are the only diagnostic it offers.
    Api { fields: Vec<ExtraField> },
    /// The service could not be reached: network failure, timeout, or a
    /// bad HTTP status. Carries the transport layer's own description.
    Transport { detail: String },
}

/// The unmodeled members of an error payload rendered as `key=value; `
/// runs, in order.
pub open spec fn fields_note(s: Seq<(Seq<char>, Seq<char>)>) -> Seq<char>
    decreases s.len(),
{
    if s.len() == 0 {
        Seq::<char>::empty()
    } else {
        fields_note(s.drop_last()) + s.last().0 + "="@ + s.last().1 + "; "@
    }
}

impl FetchError {
    /// One line describing the failure, in the same terms for every caller:
    /// a fixed prefix naming the kind, then the payload.
    pub fn message(&self) -> (r: String)
        ensures
            (match self {
                FetchError::Api { fields } => r@ == "API responded with errors (partial response): "@
                    + fields_note(fields@.map_values(|f: ExtraField| f@)),
                FetchError::Transport { detail } => r@ == "API communication error: "@ + detail@,
            }),
    {
        match self {
            FetchError::Api { fields } => {
                let mut out = String::from_str("API responded with errors (partial response): ");
                let ghost all: Seq<(Seq<char>, Seq<char>)> = fields@.map_values(
                    |f: ExtraField| f@,
                );
                let mut i: usize = 0;
                while i < fields.len()
                    invariant
                        i <= fields@.len(),
                        all == fields@.map_values(|f: ExtraField| f@),
                        out@ == "API responded with errors (partial response): "@ + fields_note(
                            all.subrange(0, i as int),
                        ),
                    decreases fields@.len() - i,
                {
                    out.append(fields[i].key.as_str());
                    out.append("=");
                    out.append(fields[i].value.as_str());
                    out.append("; ");
                    proof {
                        assert(all.subrange(0, i + 1).drop_last() =~= all.subrange(0, i as int));
                        assert(all.subrange(0, i + 1).last() == all[i as int]);
                    }
                    i = i + 1;
                }
                proof {
                    assert(all.subrange(0, all.len() as int) =~= all);
                }
                out
            },
            FetchError::Transport { detail } => {
                let mut out = String::from_str("API communication error: ");
                out.append(detail.as_str());
                out
            },
        }
    }
}

/// The first round trip: ask for page 1 with page size 1, purely to learn
/// the catalog's total count cheaply.
pub fn probe_request() -> (r: PageRequest)
    ensures
        r.page == 1,
        r.count == 1,
{
    PageRequest { page: 1, count: 1 }
}

/// The decision after the first round trip: a failing success flag is an
/// `Api` error carrying the unmodeled payload; otherwise the second request
/// asks for page 1 sized to the whole catalog.
pub fn catalog_request(probe: PageResponse) -> (r: Result<PageRequest, FetchError>)
    ensures
        (match r {
            Ok(req) => probe.ok && req.page == 1 && req.count == probe.total_count,
            Err(e) => !probe.ok && (match e {
                FetchError::Api { fields } => fields@ == probe.unknown_fields@,
                _ => false,
            }),
        }),
{
    if !probe.ok {
        Err(FetchError::Api { fields: probe.unknown_fields })
    } else {
        Ok(PageRequest { page: 1, count: probe.total_count })
    }
}

/// The decision after the second round trip: a failing success flag is an
/// `Api` error; otherwise the catalog, sorted stably by creation time — the
/// only transformation the records undergo.
pub fn finish_fetch(full: PageResponse) -> (r: Result<Vec<Emoji>, FetchError>)
    ensures
        (match r {
            Ok(list) => full.ok && sorted_by_created(views_of(list@)) && stable_reorder_of(
                views_of(list@),
                views_of(full.emoji@),
            ),
            Err(e) => !full.ok && (match e {
                FetchError::Api { fields } => fields@ == full.unknown_fields@,
                _ => false,
            }),
        }),
{
    if !full.ok {
        Err(FetchError::Api { fields: full.unknown_fields })
    } else {
        let mut list = full.emoji;
        sort_by_created(&mut list);
        Ok(list)
    }
}

} // verus!
