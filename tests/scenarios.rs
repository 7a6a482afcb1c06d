use std::sync::Arc;

use lumen::cache::{CacheEntry, FileTime, ShardedLruCache};
use lumen::connection::{failure_message, Connection, ReadEvent, Step};
use lumen::page::{cached_page, page_policy, store_page, CacheFlag};
use lumen::pool::{ConnectionCount, PendingCounter};
use lumen::request::request_path;
use lumen::response::{overload_response, redirect_reply, send_error, static_reply};
use lumen::routing::plan_target;
use lumen::theme::{theme_fingerprint, ThemeState};

const FIXED: &str = "Server: test\r\n";

fn connection_with(bytes: &[u8]) -> Connection {
    let mut conn = Connection::new(1024, 10);
    assert!(conn.on_read(ReadEvent::Data(bytes.to_vec())).is_none());
    conn
}

#[test]
fn traversal_request_is_forbidden() {
    let mut conn = connection_with(b"GET /../etc/passwd HTTP/1.1\r\n\r\n");
    let head = match conn.advance(true, 1, 32) {
        Step::Serve { head, .. } => head,
        _ => panic!("a GET should be served"),
    };
    let path = request_path(&head);
    assert_eq!(path, "/../etc/passwd");
    assert!(plan_target(&path).is_none());
    let reply = send_error(403, b"403 Forbidden", true, "DATE", FIXED);
    assert_eq!(reply.status, 403);
    assert_eq!(reply.body, b"403 Forbidden".to_vec());
    assert!(reply.head.starts_with("HTTP/1.1 403 Forbidden\r\n"));
}

#[test]
fn directory_without_slash_redirects() {
    let t = plan_target("/posts").unwrap();
    assert!(!t.is_dir);
    assert_eq!(t.md_target, "posts.md");
    assert_eq!(t.target, "posts");
    let reply = redirect_reply(&t.normalized, true, "DATE", FIXED);
    assert_eq!(reply.status, 301);
    assert!(reply.head.starts_with("HTTP/1.1 301 Moved Permanently\r\n"));
    assert!(reply.head.contains("Location: /posts/\r\n"));
    let body = String::from_utf8(reply.body.clone()).unwrap();
    assert_eq!(body, "301 Moved Permanently: <a href=\"/posts/\">/posts/</a>");
    assert!(reply.head.contains(&format!("Content-Length: {}\r\n", reply.body.len())));
}

#[test]
fn suffix_range_on_hundred_byte_file() {
    let r = static_reply(Some("bytes=-5"), 100, "application/octet-stream", true, "DATE", FIXED);
    assert_eq!(r.status, 206);
    assert!(r.head.contains("Content-Range: bytes 95-99/100\r\n"));
    assert!(r.head.contains("Content-Length: 5\r\n"));
    assert_eq!((r.copy_start, r.copy_len), (95, 5));
}

#[test]
fn range_past_end_is_unsatisfiable() {
    let r = static_reply(Some("bytes=200-300"), 100, "application/octet-stream", true, "DATE", FIXED);
    assert_eq!(r.status, 416);
    assert!(r.head.contains("Content-Range: bytes */100\r\n"));
    assert!(r.head.contains("Content-Length: 21\r\n"));
    assert_eq!(r.body, b"Range Not Satisfiable".to_vec());
    assert_eq!(r.copy_len, 0);
}

#[test]
fn full_queue_sheds_with_503() {
    let mut pending = PendingCounter::new(2);
    assert!(pending.try_admit());
    assert!(pending.try_admit());
    assert_eq!(pending.pending_now(), 2);
    assert!(!pending.try_admit());
    assert_eq!(pending.pending_now(), 2);
    assert_eq!(
        overload_response(),
        "HTTP/1.1 503 Service Unavailable\r\nConnection: close\r\nContent-Length: 0\r\n\r\n"
    );
}

#[test]
fn touching_theme_rebuilds_and_empties_page_cache() {
    let mut cache = ShardedLruCache::new(64);
    let key = "/srv/content/about.md".to_string();
    let mtime = FileTime { secs: 1_700_000_000, nanos: 5 };
    let policy = page_policy(true, CacheFlag::Absent, None, None);
    let page = Arc::new("<p>about</p>".to_string());
    store_page(&mut cache, &policy, key.clone(), &page, mtime);
    assert_eq!(cached_page(&mut cache, true, &key, mtime).as_deref().map(|s| s.as_str()), Some("<p>about</p>"));

    let before = theme_fingerprint(&vec![1_700_000_000]);
    let after = theme_fingerprint(&vec![1_700_000_100]);
    assert_ne!(before, after);
    let mut theme = ThemeState::new(before, "old env");
    assert!(theme.current(after).is_none());
    theme.replace(after, "new env", &mut cache, true);
    assert_eq!(theme.current(after), Some(&"new env"));
    assert!(cached_page(&mut cache, true, &key, mtime).is_none());
}

#[test]
fn post_with_body_is_refused_and_closes() {
    let mut conn = connection_with(b"POST / HTTP/1.1\r\nContent-Length: 3\r\n\r\nabc");
    match conn.advance(true, 1, 32) {
        Step::RejectMethod { head } => assert_eq!(head.method.as_deref(), Some("POST")),
        _ => panic!("a POST must be refused"),
    }
    assert_eq!(failure_message(405), "Method Not Allowed");
    let reply = send_error(405, failure_message(405).as_bytes(), false, "DATE", FIXED);
    assert!(reply.head.starts_with("HTTP/1.1 405 Method Not Allowed\r\n"));
    assert!(reply.head.contains("Connection: close\r\n"));
    assert!(!reply.keep_alive);
}

#[test]
fn idle_keep_alive_closes_without_408() {
    let mut conn = connection_with(b"GET / HTTP/1.1\r\n\r\n");
    assert_eq!(conn.deadline_secs(), 10);
    assert!(matches!(conn.on_deadline(), Step::Fail { status: 408 }));
    match conn.advance(true, 1, 32) {
        Step::Serve { keep_alive, .. } => assert!(keep_alive),
        _ => panic!("a GET should be served"),
    }
    assert_eq!(conn.deadline_secs(), 2);
    assert!(matches!(conn.on_deadline(), Step::Close));
    assert!(matches!(conn.on_read(ReadEvent::TimedOut), Some(Step::Close)));
}

#[test]
fn first_request_timeout_gets_408() {
    let mut conn = Connection::new(64, 10);
    assert!(matches!(conn.on_read(ReadEvent::TimedOut), Some(Step::Fail { status: 408 })));
    assert_eq!(failure_message(408), "Request Timeout");
}

#[test]
fn pipelined_requests_answered_in_arrival_order() {
    let mut conn = connection_with(b"GET /a HTTP/1.1\r\n\r\nGET /b HTTP/1.1\r\n\r\nGET /c HTTP/1.1\r\n\r\n");
    let mut seen = Vec::new();
    loop {
        match conn.advance(true, 1, 32) {
            Step::Serve { head, keep_alive } => {
                assert!(keep_alive);
                seen.push(request_path(&head));
            }
            Step::Read { .. } => break,
            _ => panic!("unexpected step"),
        }
    }
    assert_eq!(seen, vec!["/a", "/b", "/c"]);
}

#[test]
fn connection_count_returns_to_zero() {
    let mut count = ConnectionCount::new();
    count.open();
    count.open();
    count.close();
    count.open();
    count.close();
    count.close();
    assert_eq!(count.active_now(), 0);
}

#[test]
fn pending_increments_match_decrements_at_rest() {
    let mut pending = PendingCounter::new(10);
    for _ in 0..4 {
        assert!(pending.try_admit());
    }
    for _ in 0..4 {
        pending.complete();
    }
    assert_eq!(pending.pending_now(), 0);
    assert!(pending.try_admit());
}

#[test]
fn stale_cache_entry_is_not_served() {
    let mut cache = ShardedLruCache::new(16);
    let key = "/srv/content/post.md".to_string();
    let old = FileTime { secs: 100, nanos: 0 };
    let new = FileTime { secs: 100, nanos: 1 };
    let policy = page_policy(true, CacheFlag::Bool(true), None, None);
    store_page(&mut cache, &policy, key.clone(), &Arc::new("v1".to_string()), old);
    assert!(cached_page(&mut cache, true, &key, new).is_none());
    assert!(cached_page(&mut cache, true, &key, old).is_some());
    assert!(cached_page(&mut cache, false, &key, old).is_none());
}

#[test]
fn page_cache_entry_round_trip() {
    let mut cache = ShardedLruCache::new(0);
    let e = CacheEntry { html: Arc::new("x".to_string()), mtime: FileTime { secs: 1, nanos: 2 } };
    cache.put("k".to_string(), e);
    let got = cache.get(&"k".to_string()).unwrap();
    assert_eq!(got.html.as_str(), "x");
    assert_eq!(got.mtime, FileTime { secs: 1, nanos: 2 });
}
