use osbuild_wire::cache::CacheIndex;
use osbuild_wire::checksum::parse_checksum_key;
use osbuild_wire::errors::ErrorKind;
use osbuild_wire::fetch::{FetchJob, ItemEvent, Terminal};
use osbuild_wire::method::{FetchItem, Method, SectionName};
use osbuild_wire::reply::ItemOutcome;

fn zeros(n: usize) -> Vec<u8> {
    let mut v = Vec::new();
    for _ in 0..n {
        v.push(b'0');
    }
    v
}

fn sha256_zero_key_text() -> Vec<u8> {
    let mut v = b"sha256:".to_vec();
    v.extend(zeros(64));
    v
}

fn one_item_method(url: &[u8]) -> Method {
    Method {
        section: SectionName::Items,
        items: vec![FetchItem {
            key: parse_checksum_key(&sha256_zero_key_text()).expect("valid key"),
            url: url.to_vec(),
            secret: None,
        }],
    }
}

/// A body hashing to the declared digest is fetched, published, and a second
/// identical request is served from the cache with no further download.
#[test]
fn fetch_then_cache_hit_downloads_once() {
    let cache = CacheIndex::new();
    let mut job = FetchJob::new(one_item_method(b"http://example/test.txt"), cache);
    // First run: miss, then a verified download.
    assert!(job.try_cache().is_none());
    let sg = job.record_download(ItemEvent::Downloaded {
        digest: zeros(64),
        path: b"/cache/sha256-00".to_vec(),
    });
    assert!(matches!(sg.outcome, ItemOutcome::Fetched { .. }));
    match job.finish() {
        Terminal::Success(r) => {
            assert_eq!(r.outcomes.len(), 1);
            match &r.outcomes[0].outcome {
                ItemOutcome::Fetched { path } => {
                    assert_eq!(path, &b"/cache/sha256-00".to_vec())
                },
                other => panic!("expected a fetched outcome, got {:?}", other),
            }
        },
        Terminal::Failure(e) => panic!("unexpected exception: {:?}", e),
    }
    // Second run over the same cache: a hit, no download event at all.
    let mut cache2 = CacheIndex::new();
    cache2.insert(
        parse_checksum_key(&sha256_zero_key_text()).expect("valid key"),
        b"/cache/sha256-00".to_vec(),
    );
    let mut job2 = FetchJob::new(one_item_method(b"http://example/test.txt"), cache2);
    let sg2 = job2.try_cache().expect("second fetch must be a cache hit");
    match sg2.outcome {
        ItemOutcome::Cached { path } => assert_eq!(path, b"/cache/sha256-00".to_vec()),
        other => panic!("expected a cached outcome, got {:?}", other),
    }
    match job2.finish() {
        Terminal::Success(r) => {
            assert_eq!(r.outcomes.len(), 1);
            assert!(matches!(r.outcomes[0].outcome, ItemOutcome::Cached { .. }));
        },
        Terminal::Failure(e) => panic!("unexpected exception: {:?}", e),
    }
}

/// A body hashing to a different digest than declared fails that item with a
/// checksum mismatch and publishes nothing under its key.
#[test]
fn checksum_mismatch_is_recorded_and_not_cached() {
    let cache = CacheIndex::new();
    let mut job = FetchJob::new(one_item_method(b"http://example/test.txt"), cache);
    assert!(job.try_cache().is_none());
    let mut wrong = zeros(63);
    wrong.push(b'1');
    let sg = job.record_download(ItemEvent::Downloaded {
        digest: wrong,
        path: b"/tmp/staged".to_vec(),
    });
    assert!(matches!(sg.outcome, ItemOutcome::Failed { kind: ErrorKind::ChecksumMismatch }));
    // Nothing was published: the same key still misses the cache.
    let key = parse_checksum_key(&sha256_zero_key_text()).expect("valid key");
    assert!(job.cache.lookup(&key).is_none());
    match job.finish() {
        Terminal::Success(r) => {
            assert_eq!(r.outcomes.len(), 1);
            assert!(matches!(
                r.outcomes[0].outcome,
                ItemOutcome::Failed { kind: ErrorKind::ChecksumMismatch }
            ));
        },
        Terminal::Failure(e) => panic!("unexpected exception: {:?}", e),
    }
}

fn two_item_method() -> Method {
    let mut key2 = b"sha256:".to_vec();
    key2.extend(zeros(63));
    key2.push(b'1');
    Method {
        section: SectionName::Items,
        items: vec![
            FetchItem {
                key: parse_checksum_key(&sha256_zero_key_text()).expect("valid key"),
                url: b"http://example/a".to_vec(),
                secret: None,
            },
            FetchItem {
                key: parse_checksum_key(&key2).expect("valid key"),
                url: b"http://example/b".to_vec(),
                secret: Some(b"org.osbuild.mtls".to_vec()),
            },
        ],
    }
}

/// One item's failure leaves every other item to complete and appear in the
/// reply beside it.
#[test]
fn item_failures_do_not_abort_the_job() {
    let cache = CacheIndex::new();
    let mut job = FetchJob::new(two_item_method(), cache);
    // First item: the download itself fails.
    assert!(job.try_cache().is_none());
    let sg1 = job.record_download(ItemEvent::DownloadFailed);
    assert!(matches!(sg1.outcome, ItemOutcome::Failed { kind: ErrorKind::Download }));
    // Second item: succeeds regardless.
    assert!(job.try_cache().is_none());
    let mut digest2 = zeros(63);
    digest2.push(b'1');
    let sg2 = job.record_download(ItemEvent::Downloaded {
        digest: digest2,
        path: b"/cache/sha256-01".to_vec(),
    });
    assert!(matches!(sg2.outcome, ItemOutcome::Fetched { .. }));
    match job.finish() {
        Terminal::Success(r) => {
            assert_eq!(r.outcomes.len(), 2);
            assert!(matches!(
                r.outcomes[0].outcome,
                ItemOutcome::Failed { kind: ErrorKind::Download }
            ));
            assert!(matches!(r.outcomes[1].outcome, ItemOutcome::Fetched { .. }));
        },
        Terminal::Failure(e) => panic!("unexpected exception: {:?}", e),
    }
}

/// A missing secret fails its item alone.
#[test]
fn missing_secret_fails_one_item() {
    let cache = CacheIndex::new();
    let mut job = FetchJob::new(two_item_method(), cache);
    assert!(job.try_cache().is_none());
    let sg = job.record_download(ItemEvent::Downloaded {
        digest: zeros(64),
        path: b"/cache/sha256-00".to_vec(),
    });
    assert!(matches!(sg.outcome, ItemOutcome::Fetched { .. }));
    assert!(job.try_cache().is_none());
    let sg2 = job.record_download(ItemEvent::SecretMissing);
    assert!(matches!(sg2.outcome, ItemOutcome::Failed { kind: ErrorKind::SecretNotFound }));
    match job.finish() {
        Terminal::Success(r) => {
            assert_eq!(r.outcomes.len(), 2);
            assert!(matches!(
                r.outcomes[1].outcome,
                ItemOutcome::Failed { kind: ErrorKind::SecretNotFound }
            ));
        },
        Terminal::Failure(e) => panic!("unexpected exception: {:?}", e),
    }
}

/// An infrastructure failure ends the job in one exception and no reply,
/// even when earlier items had succeeded.
#[test]
fn cache_failure_escalates_to_exception() {
    let cache = CacheIndex::new();
    let mut job = FetchJob::new(two_item_method(), cache);
    assert!(job.try_cache().is_none());
    let sg = job.record_download(ItemEvent::Downloaded {
        digest: zeros(64),
        path: b"/cache/sha256-00".to_vec(),
    });
    assert!(matches!(sg.outcome, ItemOutcome::Fetched { .. }));
    // The cache directory breaks before the second item.
    job.record_job_failure(ErrorKind::CacheIo);
    match job.finish() {
        Terminal::Success(_) => panic!("a failed job must not produce a reply"),
        Terminal::Failure(e) => assert!(matches!(e.kind, ErrorKind::CacheIo)),
    }
}
