use std::path::{Path, PathBuf};
use std::sync::Arc;
use std::time::{SystemTime, UNIX_EPOCH};

use lumen::cache::{CacheEntry, FileTime, ShardedLruCache};
use lumen::page::parse_markdown;
use lumen::paths::secure_join;
use lumen::text::escape_html;
use yaml_rust2::{Yaml, YamlLoader};

fn join(base: &Path, user: &str) -> Option<PathBuf> {
    secure_join(base.to_str().unwrap(), user).map(PathBuf::from)
}

/// The page title that the server reads from a front matter block.
fn title_of(front: &Option<String>) -> String {
    let mut title = "Lumen Page".to_string();
    if let Some(text) = front {
        if let Ok(docs) = YamlLoader::load_from_str(text) {
            if let Some(Yaml::Hash(h)) = docs.first() {
                if let Some(Yaml::String(t)) = h.get(&Yaml::String("title".to_string())) {
                    title = t.clone();
                }
            }
        }
    }
    title
}

#[test]
fn test_secure_join_valid_paths() {
    let base = Path::new("/var/www/content");

    let res = join(base, "index.md").unwrap();
    assert_eq!(res, base.join("index.md"));

    let res = join(base, "posts/2024/hello.md").unwrap();
    assert_eq!(res, base.join("posts/2024/hello.md"));
}

#[test]
fn test_secure_join_directory_traversal_attempts() {
    let base = Path::new("/var/www/content");

    let res = join(base, "../../../etc/passwd");
    assert_eq!(res, None);

    let res = join(base, "/etc/shadow").unwrap();
    assert_eq!(res, base.join("etc/shadow"));

    let res = join(base, "posts/../index.md").unwrap();
    assert_eq!(res, base.join("index.md"));
}

#[test]
fn test_escape_html_xss_payloads() {
    let payload = r#"<script>alert("XSS & 'stuff'")</script>"#;
    let escaped = escape_html(payload);
    assert_eq!(
        escaped,
        "&lt;script&gt;alert(&quot;XSS &amp; &#x27;stuff&#x27;&quot;)&lt;/script&gt;"
    );

    let benign = "Just a normal string";
    assert_eq!(escape_html(benign), benign);
}

#[test]
fn test_sharded_lru_cache() {
    let mut cache = ShardedLruCache::new(32);
    let path = "test.md".to_string();

    let now = SystemTime::now().duration_since(UNIX_EPOCH).unwrap();
    let mtime = FileTime { secs: now.as_secs(), nanos: now.subsec_nanos() };
    let html = Arc::new("<h1>Cached</h1>".to_string());

    cache.put(path.clone(), CacheEntry { html: Arc::clone(&html), mtime });
    let retrieved = cache.get(&path).expect("Item should be in cache");
    assert_eq!(*retrieved.html, *html);

    cache.clear();
    assert!(cache.get(&path).is_none(), "Cache should be empty after clear");
}

#[test]
fn test_parse_markdown_frontmatter_edge_cases() {
    let windows_md = "---\r\ntitle: Windows\r\n---\r\n# Hello";
    let (meta1, html1) = parse_markdown(windows_md);
    assert_eq!(title_of(&meta1), "Windows");
    assert!(html1.contains("<h1>Hello</h1>"));

    let no_fm = "# Just a heading";
    let (meta2, html2) = parse_markdown(no_fm);
    assert_eq!(title_of(&meta2), "Lumen Page");
    assert!(html2.contains("<h1>Just a heading</h1>"));

    let bad_yaml = "---\ntitle:[Unclosed Array\n---\n# Content";
    let (meta3, html3) = parse_markdown(bad_yaml);
    assert_eq!(title_of(&meta3), "Lumen Page");
    assert!(html3.contains("<h1>Content</h1>"));

    let bom_md = "\u{FEFF}---\ntitle: BOM\n---\nText";
    let (meta4, html4) = parse_markdown(bom_md);
    assert_eq!(title_of(&meta4), "BOM");
    assert!(html4.contains("<p>Text</p>"));
}
