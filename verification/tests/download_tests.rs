use slack_emoji::codec::render_record;
use slack_emoji::download::{
    build_pairs, on_fetch_outcome, url_extension, AssetAction, DownloadPair, DownloadStep,
    Downloader,
};
use slack_emoji::record::Emoji;
use slack_emoji::reload::{reload_records, SavedFile};

#[test]
fn extension_from_trailing_segment() {
    assert_eq!(url_extension("https://cdn.example.com/a/b.png"), "png");
    assert_eq!(url_extension("https://cdn.example.com/x.gif"), "gif");
    // the dot in the host does not count: only the trailing segment does
    assert_eq!(url_extension("https://cdn.example.com/plain"), "png");
    assert_eq!(url_extension("no-slashes-no-dots"), "png");
    assert_eq!(url_extension("archive.tar.gz"), "gz");
}

#[test]
fn pairs_skip_aliases() {
    let mut a = Emoji::new("first");
    a.url = String::from("https://cdn.example.com/first.gif");
    let mut b = Emoji::new("alias");
    b.is_alias = 1;
    b.alias_for = String::from("first");
    let c = Emoji::new("second");
    let pairs = build_pairs(&vec![a, b, c], "workspace");
    assert_eq!(pairs.len(), 2);
    assert_eq!(pairs[0].url, "https://cdn.example.com/first.gif");
    assert_eq!(pairs[0].dest, "workspace/first.gif");
    assert_eq!(pairs[1].dest, "workspace/second.png");
}

fn two_pairs() -> Vec<DownloadPair> {
    vec![
        DownloadPair {
            url: String::from("https://cdn.example.com/a.png"),
            dest: String::from("d/a.png"),
        },
        DownloadPair {
            url: String::from("https://cdn.example.com/b.png"),
            dest: String::from("d/b.png"),
        },
    ]
}

// With force off and every destination already present, the run issues no
// request at all.
#[test]
fn existing_files_skip_all_requests() {
    let mut dl = Downloader::new(two_pairs(), false, 1000);
    let mut fetches = 0;
    let mut skips = 0;
    loop {
        if dl.current_dest().is_none() {
            break;
        }
        match dl.step(true) {
            DownloadStep::Done => break,
            DownloadStep::Skip { .. } => skips += 1,
            DownloadStep::Fetch { .. } => fetches += 1,
        }
    }
    assert_eq!(fetches, 0);
    assert_eq!(skips, 2);
    assert!(matches!(dl.step(true), DownloadStep::Done));
}

// Forced runs fetch everything, one slot apart: the deadline accumulates
// by the fixed interval, not from request completion.
#[test]
fn forced_fetches_are_spaced() {
    let mut dl = Downloader::new(two_pairs(), true, 1000);
    match dl.step(true) {
        DownloadStep::Fetch {
            url,
            dest,
            not_before_ms,
        } => {
            assert_eq!(url, "https://cdn.example.com/a.png");
            assert_eq!(dest, "d/a.png");
            assert_eq!(not_before_ms, 1050);
        }
        _ => panic!("expected a fetch"),
    }
    match dl.step(false) {
        DownloadStep::Fetch { not_before_ms, .. } => assert_eq!(not_before_ms, 1100),
        _ => panic!("expected a fetch"),
    }
    assert!(matches!(dl.step(false), DownloadStep::Done));
}

// A skipped pair neither waits nor advances the slot: the next real
// fetch still gets the first slot after the run began.
#[test]
fn skips_add_no_drag() {
    let mut dl = Downloader::new(two_pairs(), false, 1000);
    assert!(matches!(dl.step(true), DownloadStep::Skip { .. }));
    match dl.step(false) {
        DownloadStep::Fetch { not_before_ms, .. } => assert_eq!(not_before_ms, 1050),
        _ => panic!("expected a fetch"),
    }
}

// A failed fetch is reported and touches nothing; a good one writes.
#[test]
fn outcome_decisions() {
    match on_fetch_outcome(String::from("d/a.png"), Ok(vec![1, 2, 3])) {
        AssetAction::Write { dest, body } => {
            assert_eq!(dest, "d/a.png");
            assert_eq!(body, vec![1, 2, 3]);
        }
        _ => panic!("expected a write"),
    }
    match on_fetch_outcome(
        String::from("d/b.png"),
        Err(String::from("HTTP status 404")),
    ) {
        AssetAction::Report { dest, note } => {
            assert_eq!(dest, "d/b.png");
            assert_eq!(note, "Could not request d/b.png: HTTP status 404");
        }
        _ => panic!("expected a report"),
    }
}

fn saved(name: &str, body: &str) -> SavedFile {
    SavedFile {
        name: String::from(name),
        is_file: true,
        content: Some(format!("{}\n", body)),
    }
}

// Two valid saved records and one malformed file: the reload yields
// exactly the two records and does not fail.
#[test]
fn reload_skips_malformed() {
    let a = render_record(&Emoji::new("aaa")).expect("renders");
    let b = render_record(&Emoji::new("bbb")).expect("renders");
    let entries = vec![
        saved("aaa.json", &a),
        SavedFile {
            name: String::from("broken.json"),
            is_file: true,
            content: Some(String::from("{ not json\n")),
        },
        saved("bbb.json", &b),
        // a subdirectory and a stray file are ignored outright
        SavedFile {
            name: String::from("sub.json"),
            is_file: false,
            content: None,
        },
        SavedFile {
            name: String::from("notes.txt"),
            is_file: true,
            content: Some(String::from("hello")),
        },
    ];
    let (records, skipped) = reload_records(&entries);
    assert_eq!(records.len(), 2);
    assert_eq!(records[0].name, "aaa");
    assert_eq!(records[1].name, "bbb");
    assert_eq!(skipped, 1);
}

// Reloaded records feed the pair builder just like fresh ones.
#[test]
fn reload_then_pairs() {
    let a = render_record(&Emoji::new("aaa")).expect("renders");
    let entries = vec![saved("aaa.json", &a)];
    let (records, _) = reload_records(&entries);
    let pairs = build_pairs(&records, "dir");
    assert_eq!(pairs.len(), 1);
    assert_eq!(pairs[0].dest, "dir/aaa.png");
    assert_eq!(pairs[0].url, "https://cdn.example.com/emoji.png");
}
