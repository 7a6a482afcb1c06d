use lumen::config::{fixed_headers, Config};
use lumen::connection::{Connection, ReadEvent, Step};
use lumen::page::{markdown_to_html, page_content, page_policy, page_reply, split_front_matter, CacheFlag};
use lumen::paths::{has_md_extension_exec, path_starts_with_exec, secure_join, static_path_allowed};
use lumen::pool::Parker;
use lumen::range::{byte_range, ByteRange};
use lumen::request::{has_body, is_keep_alive, is_servable, RequestHead};
use lumen::response::{current_http_date, directory_location, reason, static_reply, write_head};
use lumen::routing::{get_mime_type, lookups, plan_target, Lookup};
use lumen::theme::{
    dir_fingerprint, is_listing_entry, listing_url, order_by_date_desc, theme_fingerprint,
    theme_templates,
};

fn head(version: u8, headers: &[(&str, &[u8])]) -> RequestHead {
    RequestHead {
        method: Some("GET".to_string()),
        path: Some("/".to_string()),
        version: Some(version),
        headers: headers.iter().map(|(n, v)| (n.to_string(), v.to_vec())).collect(),
    }
}

#[test]
fn secure_join_edges() {
    let base = "/var/www/content";
    assert_eq!(secure_join(base, "a/../../b"), None);
    assert_eq!(secure_join(base, ".."), None);
    assert_eq!(secure_join(base, "./a//b/").as_deref(), Some("/var/www/content/a/b"));
    assert_eq!(secure_join(base, "").as_deref(), Some("/var/www/content"));
    assert_eq!(secure_join("/srv/", "x").as_deref(), Some("/srv/x"));
}

#[test]
fn static_files_must_stay_under_root() {
    assert!(static_path_allowed("/srv/content/a.css", "/srv/content"));
    assert!(static_path_allowed("/srv/content", "/srv/content"));
    assert!(!static_path_allowed("/srv/contentx/a.css", "/srv/content"));
    assert!(!static_path_allowed("/etc/passwd", "/srv/content"));
    assert!(!static_path_allowed("/srv/content/doc.md", "/srv/content"));
    assert!(!static_path_allowed("/srv/content/doc.MD", "/srv/content"));
    assert!(static_path_allowed("/srv/content/.md", "/srv/content"));
    assert!(path_starts_with_exec("/srv//content/./a", "/srv/content/"));
    assert!(!path_starts_with_exec("srv/content/a", "/srv/content"));
    assert!(has_md_extension_exec("notes.Md"));
    assert!(!has_md_extension_exec("notes.mdx"));
}

#[test]
fn request_paths_are_normalized_before_lookup() {
    let t = plan_target("/docs/My%20File?x=1").unwrap();
    assert_eq!(t.normalized, "/docs/My File");
    assert_eq!(t.target, "docs/My File");
    assert_eq!(t.md_target, "docs/My File.md");
    assert_eq!(t.static_target, "docs/My File");

    let root = plan_target("/").unwrap();
    assert!(root.is_dir);
    assert_eq!(root.md_target, "index.md");
    assert_eq!(root.static_target, "index.html");

    let dir = plan_target("//blog/").unwrap();
    assert_eq!(dir.target, "blog/");
    assert_eq!(dir.md_target, "blog/index.md");

    assert_eq!(plan_target("/a\\b").unwrap().normalized, "/a/b");
    assert_eq!(plan_target("/%FF").unwrap().normalized, "/%FF");
    assert!(plan_target("/.env").is_none());
    assert!(plan_target("/a/%2e%2e/b").is_none());
    assert!(plan_target("/a\\..\\b").is_none());
}

#[test]
fn byte_range_forms() {
    assert_eq!(byte_range(None, 10), ByteRange::Full);
    assert_eq!(byte_range(Some("bytes=0-"), 10), ByteRange::Partial { start: 0, end: 9 });
    assert_eq!(byte_range(Some("bytes=2-4"), 10), ByteRange::Partial { start: 2, end: 4 });
    assert_eq!(byte_range(Some("bytes=2-400"), 10), ByteRange::Partial { start: 2, end: 9 });
    assert_eq!(byte_range(Some("bytes= 3 - 4 "), 10), ByteRange::Partial { start: 3, end: 4 });
    assert_eq!(byte_range(Some("bytes=5-2"), 10), ByteRange::Unsatisfiable);
    assert_eq!(byte_range(Some("bytes=0-1,2-3"), 10), ByteRange::Full);
    assert_eq!(byte_range(Some("bytes=-0"), 10), ByteRange::Full);
    assert_eq!(byte_range(Some("bytes=-20"), 10), ByteRange::Partial { start: 0, end: 9 });
    assert_eq!(byte_range(Some("items=0-1"), 10), ByteRange::Full);
    assert_eq!(byte_range(Some("bytes=1-2-3"), 10), ByteRange::Full);
    assert_eq!(byte_range(Some("bytes=x-3"), 10), ByteRange::Full);
    assert_eq!(byte_range(Some("bytes=2-x"), 10), ByteRange::Partial { start: 2, end: 9 });
    assert_eq!(byte_range(Some("bytes=+2-3"), 10), ByteRange::Partial { start: 2, end: 3 });
    assert_eq!(byte_range(Some("bytes=99999999999999999999-"), 10), ByteRange::Full);
    assert_eq!(byte_range(Some("bytes=0-"), 0), ByteRange::Unsatisfiable);
}

#[test]
fn static_reply_headers() {
    let full = static_reply(None, 0, "text/html", false, "D", "");
    assert_eq!(full.status, 200);
    assert_eq!(full.copy_len, 0);
    assert_eq!(
        full.head,
        "HTTP/1.1 200 OK\r\nDate: D\r\nContent-Type: text/html\r\nContent-Length: 0\r\nConnection: close\r\nAccept-Ranges: bytes\r\n\r\n"
    );
    let css = static_reply(None, 1234, "text/css", true, "D", "X: y\r\n");
    assert_eq!(
        css.head,
        "HTTP/1.1 200 OK\r\nDate: D\r\nContent-Type: text/css\r\nContent-Length: 1234\r\nConnection: keep-alive\r\nCache-Control: public, max-age=86400\r\nAccept-Ranges: bytes\r\nX: y\r\n\r\n"
    );
}

#[test]
fn response_head_layout() {
    assert_eq!(
        write_head(404, "text/plain", 9, false, "D", None, "F: x\r\n"),
        "HTTP/1.1 404 Not Found\r\nDate: D\r\nContent-Type: text/plain\r\nContent-Length: 9\r\nConnection: close\r\nF: x\r\n\r\n"
    );
    assert_eq!(reason(431), "Header Too Large");
    assert_eq!(reason(503), "Service Unavailable");
    assert_eq!(reason(418), "Error");
    let date = current_http_date();
    assert_eq!(date.len(), 29);
    assert!(date.ends_with(" GMT"));
}

#[test]
fn location_is_percent_encoded() {
    assert_eq!(directory_location("/my posts"), "/my%20posts/");
    assert_eq!(directory_location("/a#b{c}"), "/a%23b%7Bc%7D/");
    assert_eq!(directory_location("/caf\u{e9}"), "/caf%C3%A9/");
}

#[test]
fn keep_alive_rules() {
    assert!(is_keep_alive(&head(1, &[])));
    assert!(!is_keep_alive(&head(0, &[])));
    assert!(is_keep_alive(&head(0, &[("Connection", b"Keep-Alive")])));
    assert!(!is_keep_alive(&head(1, &[("connection", b"CLOSE")])));
    assert!(is_keep_alive(&head(0, &[("Connection", b"Upgrade, KEEP-ALIVE")])));
    assert!(!is_keep_alive(&head(0, &[("Connection", b"upgrade")])));
    assert!(is_keep_alive(&head(1, &[("Connection", b"\xff")])));
}

#[test]
fn body_detection() {
    assert!(!has_body(&head(1, &[("Content-Length", b" 0 ")])));
    assert!(!has_body(&head(1, &[("Content-Length", b"")])));
    assert!(has_body(&head(1, &[("content-length", b"3")])));
    assert!(has_body(&head(1, &[("Transfer-Encoding", b"chunked")])));
    assert!(is_servable(&head(1, &[("Host", b"x")])));
    let mut post = head(1, &[]);
    post.method = Some("POST".to_string());
    assert!(!is_servable(&post));
}

#[test]
fn connection_errors_and_limits() {
    let mut small = Connection::new(8, 10);
    assert!(small.on_read(ReadEvent::Data(b"GET / HT".to_vec())).is_none());
    assert!(matches!(small.advance(true, 0, 4), Step::Fail { status: 431 }));

    let mut bad = Connection::new(64, 10);
    assert!(bad.on_read(ReadEvent::Data(b"\x00\x00\r\n\r\n".to_vec())).is_none());
    assert!(matches!(bad.advance(true, 0, 4), Step::Fail { status: 400 }));

    let mut partial = Connection::new(64, 10);
    assert!(partial.on_read(ReadEvent::Data(b"GET / HTTP/1.1\r\n".to_vec())).is_none());
    assert!(matches!(partial.advance(true, 0, 4), Step::Read { max: 48 }));
    assert!(matches!(partial.on_read(ReadEvent::Eof), Some(Step::Close)));

    let mut busy = Connection::new(64, 10);
    assert!(busy.on_read(ReadEvent::Data(b"GET / HTTP/1.1\r\n\r\n".to_vec())).is_none());
    assert!(matches!(busy.advance(true, 4, 4), Step::Serve { keep_alive: false, .. }));

    let mut draining = Connection::new(64, 10);
    assert!(draining.on_read(ReadEvent::Data(b"GET / HTTP/1.1\r\n\r\n".to_vec())).is_none());
    assert!(matches!(draining.advance(false, 0, 4), Step::Serve { keep_alive: false, .. }));
}

#[test]
fn front_matter_split_forms() {
    let (fm, body) = split_front_matter("---\ntitle: X\n---\nBODY");
    assert_eq!(fm.as_deref(), Some("title: X"));
    assert_eq!(body, "BODY");
    let (fm, body) = split_front_matter("---\ntitle: X\n---\r\n\n  Body");
    assert_eq!(fm.as_deref(), Some("title: X"));
    assert_eq!(body, "Body");
    let (fm, body) = split_front_matter("---\nunclosed");
    assert_eq!(fm, None);
    assert_eq!(body, "---\nunclosed");
    let (fm, body) = split_front_matter("\u{feff}plain");
    assert_eq!(fm, None);
    assert_eq!(body, "plain");
}

#[test]
fn markdown_and_page_policy() {
    assert_eq!(markdown_to_html("# Hi"), "<h1>Hi</h1>\n");
    assert_eq!(markdown_to_html("~~x~~"), "<p><del>x</del></p>\n");
    assert_eq!(page_content("*raw*", None), "<p><em>raw</em></p>\n");
    assert_eq!(page_content("*raw*", Some("**done**".to_string())), "<p><strong>done</strong></p>\n");

    let p = page_policy(true, CacheFlag::Absent, None, None);
    assert!(p.use_cache);
    assert_eq!(p.template, "index");
    assert_eq!(p.content_type, "text/html; charset=utf-8");
    assert!(!page_policy(true, CacheFlag::Bool(false), None, None).use_cache);
    assert!(!page_policy(true, CacheFlag::Text("yes".to_string()), None, None).use_cache);
    assert!(page_policy(true, CacheFlag::Text("true".to_string()), None, None).use_cache);
    assert!(page_policy(true, CacheFlag::Other, None, None).use_cache);
    assert!(!page_policy(false, CacheFlag::Bool(true), None, None).use_cache);
    let rss = page_policy(true, CacheFlag::Absent, Some("rss.xml".to_string()), Some("application/rss+xml".to_string()));
    assert_eq!(rss.template, "rss.xml");
    assert_eq!(rss.content_type, "application/rss+xml");

    let ok = page_reply(Some("<p>x</p>"), &rss, true, "D", "");
    assert_eq!(ok.status, 200);
    assert!(ok.head.contains("Content-Type: application/rss+xml\r\n"));
    let failed = page_reply(None, &rss, true, "D", "");
    assert_eq!(failed.status, 500);
    assert_eq!(failed.body, b"Internal Server Error".to_vec());
}

#[test]
fn mime_types_by_extension() {
    assert_eq!(get_mime_type("/srv/site/style.css"), "text/css");
    assert_eq!(get_mime_type("/srv/site/page.html"), "text/html");
    assert_eq!(get_mime_type("/srv/site/blob.zzqq"), "application/octet-stream");
}

#[test]
fn fingerprints() {
    const K: u64 = 0x517cc1b727220a95;
    assert_eq!(theme_fingerprint(&vec![]), 0);
    let h1 = 9u64.wrapping_mul(K);
    let expected = (h1.rotate_left(5) ^ 2).wrapping_mul(K);
    assert_eq!(theme_fingerprint(&vec![5, 9]), expected);
    assert_eq!(dir_fingerprint(&vec![(1, 2)]), 3);
    assert_eq!(dir_fingerprint(&vec![(1, 2), (4, 5)]), ((3u64.rotate_left(3)) ^ 4) + 5);
}

#[test]
fn theme_templates_and_listings() {
    let files = vec![
        ("index.html".to_string(), "A".to_string()),
        ("rss.xml".to_string(), "B".to_string()),
    ];
    let t = theme_templates(files, true);
    let names: Vec<(&str, &str)> = t.iter().map(|(n, b)| (n.as_str(), b.as_str())).collect();
    assert_eq!(names, vec![("index.html", "A"), ("index", "A"), ("rss.xml", "B")]);
    let fallback = theme_templates(vec![], false);
    assert_eq!(fallback, vec![("index".to_string(), "{{ content|safe }}".to_string())]);

    assert!(is_listing_entry("hello.md"));
    assert!(!is_listing_entry("hello.MD"));
    assert!(!is_listing_entry("image.png"));
    assert_eq!(listing_url("posts", "index"), "/posts/");
    assert_eq!(listing_url("posts", "hello-world"), "/posts/hello-world");

    let dates: Vec<String> = ["2024-01-01", "2026-03-01", "", "2026-03-01", "2025-12-31"]
        .iter()
        .map(|s| s.to_string())
        .collect();
    assert_eq!(order_by_date_desc(&dates), vec![1, 3, 4, 0, 2]);
}

#[test]
fn parker_tokens() {
    let mut p = Parker::new(2);
    assert!(!p.wait());
    assert!(p.notify_one());
    assert!(p.notify_one());
    assert!(!p.notify_one());
    assert!(p.wait());
    assert!(p.wait());
    assert!(!p.wait());
}

#[test]
fn configuration_defaults_and_overrides() {
    let mut c = Config::default();
    assert_eq!(c.server.port, 8080);
    assert_eq!(c.server.threads, 32);
    assert_eq!(c.server.queue_size, 2000);
    assert_eq!(c.performance.connection_buffer_size, 65536);
    assert_eq!(c.listing_cache_items(), 256);
    assert_eq!(
        fixed_headers(&c),
        "Server: Lumen/1.0\r\nX-Content-Type-Options: nosniff\r\nX-Frame-Options: DENY\r\nContent-Security-Policy: default-src 'self'; style-src 'self' 'unsafe-inline'; media-src 'self'\r\nAccess-Control-Allow-Origin: *\r\n"
    );
    c.with_cli_overrides(Some(9000), true);
    assert_eq!(c.server.port, 9000);
    assert!(!c.performance.enable_caching);
    c.performance.max_cache_items = 3;
    assert_eq!(c.listing_cache_items(), 1);
}

#[test]
fn lookups_follow_the_url_mapping() {
    let t = plan_target("/posts").unwrap();
    let l = lookups("/srv/c", &t);
    assert_eq!(l.len(), 3);
    assert!(matches!(&l[0], Lookup::Markdown(p) if p == "/srv/c/posts.md"));
    assert!(matches!(&l[1], Lookup::Directory(p) if p == "/srv/c/posts"));
    assert!(matches!(&l[2], Lookup::Static(p) if p == "/srv/c/posts"));

    let root = plan_target("/").unwrap();
    let l = lookups("/srv/c", &root);
    assert_eq!(l.len(), 2);
    assert!(matches!(&l[0], Lookup::Markdown(p) if p == "/srv/c/index.md"));
    assert!(matches!(&l[1], Lookup::Static(p) if p == "/srv/c/index.html"));
}
