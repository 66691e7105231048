use slack_emoji::fetch::{catalog_request, finish_fetch, probe_request, FetchError, PageResponse};
use slack_emoji::record::{Emoji, ExtraField};
use slack_emoji::sort::sort_by_created;

fn record(name: &str, created: u128) -> Emoji {
    let mut e = Emoji::new(name);
    e.created = created;
    e
}

fn page(ok: bool, total: u32, emoji: Vec<Emoji>) -> PageResponse {
    PageResponse {
        ok,
        total_count: total,
        paging_count: emoji.len() as u32,
        emoji,
        unknown_fields: Vec::new(),
    }
}

#[test]
fn probe_asks_for_one() {
    let req = probe_request();
    assert_eq!(req.page, 1);
    assert_eq!(req.count, 1);
}

#[test]
fn catalog_request_uses_discovered_total() {
    let req = catalog_request(page(true, 4711, Vec::new())).expect("a good probe continues");
    assert_eq!(req.page, 1);
    assert_eq!(req.count, 4711);
}

#[test]
fn failing_probe_carries_the_payload() {
    let mut resp = page(false, 0, Vec::new());
    resp.unknown_fields.push(ExtraField {
        key: String::from("error"),
        value: String::from("\"invalid_auth\""),
    });
    match catalog_request(resp) {
        Err(FetchError::Api { fields }) => {
            assert_eq!(fields.len(), 1);
            assert_eq!(fields[0].key, "error");
            assert_eq!(fields[0].value, "\"invalid_auth\"");
        }
        _ => panic!("expected the api error"),
    }
}

#[test]
fn finish_fetch_sorts_by_created() {
    let resp = page(
        true,
        3,
        vec![record("c", 30), record("a", 10), record("b", 20)],
    );
    let list = finish_fetch(resp).expect("a good page finishes");
    let names: Vec<&str> = list.iter().map(|e| e.name.as_str()).collect();
    assert_eq!(names, vec!["a", "b", "c"]);
}

#[test]
fn finish_fetch_fails_on_bad_flag() {
    let resp = page(false, 3, vec![record("c", 30)]);
    assert!(matches!(finish_fetch(resp), Err(FetchError::Api { .. })));
}

// Sorting by `created` is stable: records sharing a timestamp keep their
// arrival order, and the result never decreases.
#[test]
fn sort_is_stable_and_nondecreasing() {
    let mut v = vec![
        record("d", 20),
        record("a", 10),
        record("b", 10),
        record("c", 5),
        record("e", 10),
    ];
    sort_by_created(&mut v);
    let names: Vec<&str> = v.iter().map(|e| e.name.as_str()).collect();
    assert_eq!(names, vec!["c", "a", "b", "e", "d"]);
    for w in v.windows(2) {
        assert!(w[0].created <= w[1].created);
    }
}

#[test]
fn error_messages_name_their_kind() {
    let transport = FetchError::Transport {
        detail: String::from("connection timed out"),
    };
    assert_eq!(
        transport.message(),
        "API communication error: connection timed out"
    );
    let api = FetchError::Api {
        fields: vec![ExtraField {
            key: String::from("ok"),
            value: String::from("false"),
        }],
    };
    assert_eq!(
        api.message(),
        "API responded with errors (partial response): ok=false; "
    );
}
