use bmw::cache::{cache_blocks, CacheBlock, cache_decision, cached_response_plan, parse_cache_record, CacheRecord, CacheStreamResult};
use bmw::error::{CoreErrorKind, ErrKind};

fn rec(len: usize, last_modified: u64, last_check: u64) -> CacheRecord {
    CacheRecord { len, last_modified, mime_code: 3, last_check }
}

#[test]
fn record_is_read_big_endian() {
    let mut data = vec![0u8; 28];
    data[7] = 200;
    data[15] = 1;
    data[14] = 1;
    data[19] = 7;
    data[27] = 9;
    let r = parse_cache_record(&data).unwrap();
    assert_eq!(r, CacheRecord { len: 200, last_modified: 257, mime_code: 7, last_check: 9 });
}

#[test]
fn cache_decisions() {
    assert_eq!(cache_decision(None, 100, 10, None), CacheStreamResult::Miss);
    assert_eq!(cache_decision(Some(rec(5, 50, 95)), 100, 10, None), CacheStreamResult::Hit);
    assert_eq!(cache_decision(Some(rec(5, 50, 10)), 100, 10, None), CacheStreamResult::Modified);
    assert_eq!(cache_decision(Some(rec(5, 50, 10)), 100, 10, Some(51)), CacheStreamResult::Modified);
    assert_eq!(cache_decision(Some(rec(5, 50, 10)), 100, 10, Some(50)), CacheStreamResult::NotModified);
    // a check in the future counts as just made
    assert_eq!(cache_decision(Some(rec(5, 50, 200)), 100, 10, None), CacheStreamResult::Hit);
}

#[test]
fn response_plans() {
    let r = rec(1000, 1700000000000, 0);
    // full file, no conditions
    let p = cached_response_plan(&r, 0, usize::MAX, false, "", "", 200, "OK").unwrap();
    assert_eq!(p.code, 200);
    assert_eq!(p.message, "OK");
    assert_eq!(p.etag, "1700000000000-3e8");
    assert_eq!(p.content_len, 1000);
    assert!(p.send_content);
    assert!(p.end_chunks);
    // matching etag: not modified
    let p = cached_response_plan(&r, 0, usize::MAX, false, "1700000000000-3e8", "", 200, "OK").unwrap();
    assert_eq!(p.code, 304);
    assert_eq!(p.message, "Not Modified");
    assert!(!p.send_content);
    // a date after the modification: not modified
    let p = cached_response_plan(&r, 0, usize::MAX, false, "", "Tue, 1 Jul 2025 10:52:37 GMT", 200, "OK").unwrap();
    assert_eq!(p.code, 304);
    // a range
    let p = cached_response_plan(&r, 10, 20, true, "", "", 200, "OK").unwrap();
    assert_eq!(p.code, 206);
    assert_eq!(p.message, "Partial Content");
    assert_eq!(p.content_len, 10);
    assert_eq!(p.etag, "1700000000000-a");
    assert!(p.send_content);
    assert!(!p.end_chunks);
    // a date before the epoch
    let e = cached_response_plan(&r, 0, 5, false, "", "Tue, 1 Jul 1969 10:52:37 GMT", 200, "OK").unwrap_err();
    assert!(matches!(e.kind(), ErrKind::Core(CoreErrorKind::TryInto(_))));
}

#[test]
fn content_is_read_in_blocks() {
    assert_eq!(cache_blocks(0, 4), vec![CacheBlock { offset: 28, len: 0, before: 0 }]);
    assert_eq!(
        cache_blocks(10, 4),
        vec![
            CacheBlock { offset: 28, len: 4, before: 0 },
            CacheBlock { offset: 32, len: 4, before: 4 },
            CacheBlock { offset: 36, len: 2, before: 8 },
        ]
    );
    assert_eq!(
        cache_blocks(8, 4),
        vec![CacheBlock { offset: 28, len: 4, before: 0 }, CacheBlock { offset: 32, len: 4, before: 4 }]
    );
}
