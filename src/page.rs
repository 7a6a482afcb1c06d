//! Rendering a Markdown document into a page: front matter, the per-page
//! policy, the Markdown pass, and the page cache in front of it all.
use vstd::prelude::*;

use std::sync::Arc;

use crate::cache::{share, CacheEntry, FileTime, ShardedLruCache};
use crate::response::{response_head, send_response, Reply};
use crate::text::{chars_of, string_of, trim_start_index, trim_start_spec};

verus! {

// ---------------------------------------------------------------------
// Front matter

pub open spec fn starts_with(s: Seq<char>, p: Seq<char>) -> bool {
    s.len() >= p.len() && s.take(p.len() as int) == p
}

/// Where `t` first occurs in `s` at or after `i`.
pub open spec fn find_from(s: Seq<char>, t: Seq<char>, i: int) -> Option<int>
    decreases s.len() + 1 - i,
{
    if i < 0 || i + t.len() > s.len() {
        None
    } else if s.subrange(i, i + t.len()) == t {
        Some(i)
    } else {
        find_from(s, t, i + 1)
    }
}

pub open spec fn bom_stripped(s: Seq<char>) -> Seq<char> {
    if s.len() > 0 && s[0] == '\u{FEFF}' {
        s.drop_first()
    } else {
        s
    }
}

pub open spec fn dash_line_lf() -> Seq<char> {
    seq!['-', '-', '-', '\n']
}

pub open spec fn dash_line_crlf() -> Seq<char> {
    seq!['-', '-', '-', '\r', '\n']
}

pub open spec fn closing_mark() -> Seq<char> {
    seq!['\n', '-', '-', '-']
}

/// A document split into its front matter (the text between an opening
/// `---` line at its very start and the next `\n---`) and its body (what
/// follows the closing `---` and its line end, leading white space
/// trimmed). A leading byte order mark is dropped first; without both
/// delimiters there is no front matter and the body is the whole text.
pub open spec fn front_matter_split(doc: Seq<char>) -> (Option<Seq<char>>, Seq<char>) {
    let c = bom_stripped(doc);
    let a: int = if starts_with(c, dash_line_crlf()) {
        5
    } else if starts_with(c, dash_line_lf()) {
        4
    } else {
        0
    };
    if a == 0 {
        (None, c)
    } else {
        let after = c.skip(a);
        match find_from(after, closing_mark(), 0) {
            None => (None, c),
            Some(e) => {
                let rem = after.skip(e);
                let body = if starts_with(rem, closing_mark() + seq!['\r', '\n']) {
                    rem.skip(6)
                } else if starts_with(rem, closing_mark() + seq!['\n']) {
                    rem.skip(5)
                } else {
                    rem.skip(4)
                };
                (Some(after.take(e)), trim_start_spec(body))
            },
        }
    }
}

fn starts_with_at(s: &[char], i: usize, p: &[char]) -> (r: bool)
    requires
        i <= s.len(),
    ensures
        r == (i + p.len() <= s.len() && s@.subrange(i as int, i + p.len()) == p@),
{
    if p.len() > s.len() - i {
        return false;
    }
    let mut j: usize = 0;
    while j < p.len()
        invariant
            j <= p.len(),
            i + p.len() <= s.len(),
            forall|k: int| 0 <= k < j ==> s@[i + k] == p@[k],
        decreases p.len() - j,
    {
        if s[i + j] != p[j] {
            assert(s@.subrange(i as int, i + p.len())[j as int] != p@[j as int]);
            return false;
        }
        j = j + 1;
    }
    assert(s@.subrange(i as int, i + p.len()) =~= p@);
    true
}

proof fn lemma_find_from_bounds(s: Seq<char>, t: Seq<char>, i: int)
    ensures
        find_from(s, t, i) matches Some(k) ==> i <= k && k + t.len() <= s.len(),
    decreases s.len() + 1 - i,
{
    if !(i < 0 || i + t.len() > s.len()) && s.subrange(i, i + t.len()) != t {
        lemma_find_from_bounds(s, t, i + 1);
    }
}

fn find_from_exec(s: &[char], t: &[char], from: usize) -> (r: Option<usize>)
    requires
        from <= s.len(),
    ensures
        match r {
            Some(i) => find_from(s@, t@, from as int) == Some(i as int),
            None => find_from(s@, t@, from as int) is None,
        },
{
    let mut i = from;
    while i <= s.len()
        invariant
            from <= i,
            find_from(s@, t@, from as int) == find_from(s@, t@, i as int),
        decreases s.len() + 1 - i,
    {
        if starts_with_at(s, i, t) {
            return Some(i);
        }
        if i == s.len() || t.len() > s.len() - i {
            if t.len() == 0 {
                assert(s@.subrange(i as int, i as int) =~= t@);
            }
            assert(find_from(s@, t@, i as int) is None);
            return None;
        }
        i = i + 1;
    }
    None
}

fn chars_from(v: &Vec<char>, from: usize) -> (r: Vec<char>)
    requires
        from <= v.len(),
    ensures
        r@ == v@.skip(from as int),
{
    let mut r: Vec<char> = Vec::new();
    let mut i = from;
    while i < v.len()
        invariant
            from <= i <= v.len(),
            r@ == v@.subrange(from as int, i as int),
        decreases v.len() - i,
    {
        r.push(v[i]);
        i = i + 1;
    }
    r
}

/// Splits a document into its front matter and its body (see
/// `front_matter_split`).
pub fn split_front_matter(content: &str) -> (r: (Option<String>, String))
    ensures
        front_matter_split(content@) == (
            match r.0 {
                Some(f) => Some(f@),
                None => None,
            },
            r.1@,
        ),
{
    let raw = chars_of(content);
    let c = if raw.len() > 0 && raw[0] == '\u{FEFF}' {
        chars_from(&raw, 1)
    } else {
        raw
    };
    assert(c@ == bom_stripped(content@));
    let crlf = ['-', '-', '-', '\r', '\n'];
    let lf = ['-', '-', '-', '\n'];
    let a: usize = if starts_with_at(c.as_slice(), 0, &crlf) {
        assert(c@.subrange(0, 5) == c@.take(5));
        5
    } else if starts_with_at(c.as_slice(), 0, &lf) {
        assert(c@.subrange(0, 4) == c@.take(4));
        proof {
            assert(!starts_with(c@, dash_line_crlf())) by {
                if starts_with(c@, dash_line_crlf()) {
                    assert(c@.subrange(0, 5) == c@.take(5));
                    assert(crlf@ =~= dash_line_crlf());
                }
            }
        }
        4
    } else {
        proof {
            assert(!starts_with(c@, dash_line_crlf())) by {
                if starts_with(c@, dash_line_crlf()) {
                    assert(c@.subrange(0, 5) == c@.take(5));
                    assert(crlf@ =~= dash_line_crlf());
                }
            }
            assert(!starts_with(c@, dash_line_lf())) by {
                if starts_with(c@, dash_line_lf()) {
                    assert(c@.subrange(0, 4) == c@.take(4));
                    assert(lf@ =~= dash_line_lf());
                }
            }
        }
        0
    };
    proof {
        if a == 5 {
            assert(crlf@ =~= dash_line_crlf());
        }
        if a == 4 {
            assert(lf@ =~= dash_line_lf());
        }
    }
    if a == 0 {
        return (None, string_of(&c));
    }
    let after = chars_from(&c, a);
    let mark = ['\n', '-', '-', '-'];
    assert(mark@ =~= closing_mark());
    match find_from_exec(after.as_slice(), &mark, 0) {
        None => (None, string_of(&c)),
        Some(e) => {
            proof {
                lemma_find_from_bounds(after@, mark@, 0);
            }
            let mut front: Vec<char> = Vec::new();
            let mut i: usize = 0;
            while i < e
                invariant
                    i <= e,
                    e + 4 <= after.len(),
                    front@ == after@.take(i as int),
                decreases e - i,
            {
                front.push(after[i]);
                i = i + 1;
                assert(after@.take(i as int) == after@.take(i - 1).push(after@[i - 1]));
            }
            let rem = chars_from(&after, e);
            let close_crlf = ['\n', '-', '-', '-', '\r', '\n'];
            let close_lf = ['\n', '-', '-', '-', '\n'];
            assert(close_crlf@ =~= closing_mark() + seq!['\r', '\n']);
            assert(close_lf@ =~= closing_mark() + seq!['\n']);
            let skip: usize = if starts_with_at(rem.as_slice(), 0, &close_crlf) {
                assert(rem@.subrange(0, 6) == rem@.take(6));
                6
            } else if starts_with_at(rem.as_slice(), 0, &close_lf) {
                assert(rem@.subrange(0, 5) == rem@.take(5));
                assert(!starts_with(rem@, closing_mark() + seq!['\r', '\n'])) by {
                    if starts_with(rem@, closing_mark() + seq!['\r', '\n']) {
                        assert(rem@.subrange(0, 6) == rem@.take(6));
                    }
                }
                5
            } else {
                assert(!starts_with(rem@, closing_mark() + seq!['\r', '\n'])) by {
                    if starts_with(rem@, closing_mark() + seq!['\r', '\n']) {
                        assert(rem@.subrange(0, 6) == rem@.take(6));
                    }
                }
                assert(!starts_with(rem@, closing_mark() + seq!['\n'])) by {
                    if starts_with(rem@, closing_mark() + seq!['\n']) {
                        assert(rem@.subrange(0, 5) == rem@.take(5));
                    }
                }
                4
            };
            let body = chars_from(&rem, skip);
            let t = trim_start_index(body.as_slice());
            let trimmed = chars_from(&body, t);
            (Some(string_of(&front)), string_of(&trimmed))
        },
    }
}

/// A document of the form `---\ntitle: X\n---\nBODY` splits into the front
/// matter `title: X` and the body `BODY`, leading white space trimmed.
pub proof fn lemma_front_matter_round_trip(x: Seq<char>, body: Seq<char>)
    requires
        forall|i: int| 0 <= i < x.len() ==> x[i] != '\n',
    ensures
        ({
            let fm = seq!['t', 'i', 't', 'l', 'e', ':', ' '] + x;
            let doc = dash_line_lf() + fm + closing_mark() + seq!['\n'] + body;
            front_matter_split(doc) == (Some(fm), trim_start_spec(body))
        }),
{
    let fm = seq!['t', 'i', 't', 'l', 'e', ':', ' '] + x;
    let doc = dash_line_lf() + fm + closing_mark() + seq!['\n'] + body;
    assert(doc[0] == '-');
    assert(bom_stripped(doc) == doc);
    assert(doc.take(4) =~= dash_line_lf());
    assert(doc[3] == '\n');
    assert(!starts_with(doc, dash_line_crlf())) by {
        if starts_with(doc, dash_line_crlf()) {
            assert(doc.take(5)[3] == '\r');
        }
    }
    let after = doc.skip(4);
    assert(after =~= fm + closing_mark() + seq!['\n'] + body);
    let e = fm.len() as int;
    assert forall|i: int| 0 <= i < e implies #[trigger] find_from(after, closing_mark(), i) == find_from(after, closing_mark(), i + 1) by {
        assert(after[i] == fm[i]);
        if i >= 7 {
            assert(fm[i] == x[i - 7]);
        }
        assert(after.subrange(i, i + 4)[0] == after[i]);
    }
    assert(after.subrange(e, e + 4) =~= closing_mark());
    assert(find_from(after, closing_mark(), e) == Some(e));
    lemma_find_back(after, closing_mark(), e, e);
    assert(find_from(after, closing_mark(), 0) == Some(e));
    let rem = after.skip(e);
    assert(rem =~= closing_mark() + seq!['\n'] + body);
    assert(rem.take(5) =~= closing_mark() + seq!['\n']);
    assert(!starts_with(rem, closing_mark() + seq!['\r', '\n'])) by {
        if starts_with(rem, closing_mark() + seq!['\r', '\n']) {
            assert(rem.take(6)[4] == '\r');
        }
    }
    assert(rem.skip(5) =~= body);
    assert(after.take(e) =~= fm);
}

proof fn lemma_find_back(s: Seq<char>, t: Seq<char>, e: int, i: int)
    requires
        0 <= i <= e,
        find_from(s, t, e) == Some(e),
        forall|k: int| 0 <= k < e ==> #[trigger] find_from(s, t, k) == find_from(s, t, k + 1),
    ensures
        find_from(s, t, e - i) == Some(e),
    decreases i,
{
    if i > 0 {
        lemma_find_back(s, t, e, i - 1);
    }
}

// ---------------------------------------------------------------------
// Markdown

/// The option bits of `pulldown_cmark::Options` that pages are read with:
/// tables, strikethrough, task lists and smart punctuation.
pub const MARKDOWN_OPTIONS: u32 = 58;

/// The HTML that pulldown-cmark writes for a Markdown text read with the
/// given option bits.
pub uninterp spec fn markdown_html_of(text: Seq<char>, options: u32) -> Seq<char>;

/// Relies on `pulldown_cmark::Parser::new_ext` and `html::push_html`; the
/// HTML depends on the text and the options alone.
#[verifier::external_body]
fn markdown_html(text: &str, options: u32) -> (r: String)
    ensures
        r@ == markdown_html_of(text@, options),
{
    let parser = pulldown_cmark::Parser::new_ext(text, pulldown_cmark::Options::from_bits_truncate(options));
    let mut out = String::new();
    pulldown_cmark::html::push_html(&mut out, parser);
    out
}

/// The HTML of a page body.
pub fn markdown_to_html(text: &str) -> (r: String)
    ensures
        r@ == markdown_html_of(text@, MARKDOWN_OPTIONS),
{
    markdown_html(text, MARKDOWN_OPTIONS)
}

/// Splits a document into its front matter text and the HTML of its body.
pub fn parse_markdown(content: &str) -> (r: (Option<String>, String))
    ensures
        front_matter_split(content@).0 == match r.0 {
            Some(f) => Some(f@),
            None => None,
        },
        r.1@ == markdown_html_of(front_matter_split(content@).1, MARKDOWN_OPTIONS),
{
    let (front, body) = split_front_matter(content);
    let html = markdown_to_html(body.as_str());
    (front, html)
}

/// The content of a page: the HTML of its body after the per-page template
/// pass, or of the raw body when that pass failed.
pub fn page_content(raw_body: &str, template_pass: Option<String>) -> (r: String)
    ensures
        r@ == markdown_html_of(
            match template_pass {
                Some(t) => t@,
                None => raw_body@,
            },
            MARKDOWN_OPTIONS,
        ),
{
    match template_pass {
        Some(t) => markdown_to_html(t.as_str()),
        None => markdown_to_html(raw_body),
    }
}

// ---------------------------------------------------------------------
// Policy and cache

/// The `cache` key of a document's front matter, as far as it matters.
pub enum CacheFlag {
    Absent,
    Bool(bool),
    Text(String),
    Other,
}

/// How a document asks to be served.
pub struct PagePolicy {
    /// The rendered page may be stored in the page cache.
    pub use_cache: bool,
    /// The theme template to render with.
    pub template: String,
    pub content_type: String,
}

pub open spec fn cache_allowed(flag: CacheFlag) -> bool {
    match flag {
        CacheFlag::Absent => true,
        CacheFlag::Bool(b) => b,
        CacheFlag::Text(s) => s@ == "true"@,
        CacheFlag::Other => true,
    }
}

/// Reads the policy of a document from its front matter: caching unless
/// the server has it off or the document says `cache: false` (a string
/// counts only when it is `true`); the template `index` and the type
/// `text/html; charset=utf-8` unless the document names others.
pub fn page_policy(
    caching_enabled: bool,
    cache: CacheFlag,
    template: Option<String>,
    content_type: Option<String>,
) -> (r: PagePolicy)
    ensures
        r.use_cache == (caching_enabled && cache_allowed(cache)),
        r.template@ == match template {
            Some(t) => t@,
            None => "index"@,
        },
        r.content_type@ == match content_type {
            Some(t) => t@,
            None => "text/html; charset=utf-8"@,
        },
{
    let allowed = match &cache {
        CacheFlag::Absent => true,
        CacheFlag::Bool(b) => *b,
        CacheFlag::Text(s) => {
            let cs = chars_of(s.as_str());
            proof {
                reveal_strlit("true");
                if cs@.len() == 4 && cs@[0] == 't' && cs@[1] == 'r' && cs@[2] == 'u' && cs@[3] == 'e' {
                    assert(cs@ =~= "true"@);
                }
            }
            cs.len() == 4 && cs[0] == 't' && cs[1] == 'r' && cs[2] == 'u' && cs[3] == 'e'
        },
        CacheFlag::Other => true,
    };
    let template = match template {
        Some(t) => t,
        None => "index".to_string(),
    };
    let content_type = match content_type {
        Some(t) => t,
        None => "text/html; charset=utf-8".to_string(),
    };
    PagePolicy { use_cache: caching_enabled && allowed, template, content_type }
}

/// The cached page for `key`, served only when caching is on and the entry
/// was rendered from the document as it is now: its stored modification
/// time equals `mtime`.
pub fn cached_page(
    cache: &mut ShardedLruCache,
    caching_enabled: bool,
    key: &String,
    mtime: FileTime,
) -> (r: Option<Arc<String>>)
    requires
        old(cache).well_formed(),
    ensures
        final(cache).well_formed(),
        match r {
            Some(h) => {
                &&& caching_enabled
                &&& old(cache).lookup(key@) is Some
                &&& old(cache).lookup(key@)->0.mtime == mtime
                &&& h@ == old(cache).lookup(key@)->0.html@
            },
            None => !(caching_enabled && old(cache).lookup(key@) is Some && old(cache).lookup(key@)->0.mtime
                == mtime),
        },
{
    if !caching_enabled {
        return None;
    }
    match cache.get(key) {
        Some(e) => {
            if e.mtime == mtime {
                Some(e.html)
            } else {
                None
            }
        },
        None => None,
    }
}

/// Stores a freshly rendered page when its policy allows.
pub fn store_page(cache: &mut ShardedLruCache, policy: &PagePolicy, key: String, html: &Arc<String>, mtime: FileTime)
    requires
        old(cache).well_formed(),
    ensures
        final(cache).well_formed(),
        policy.use_cache ==> final(cache).lookup(key@) is Some && final(cache).lookup(key@)->0.html@
            == html@ && final(cache).lookup(key@)->0.mtime == mtime,
        !policy.use_cache ==> *final(cache) == *old(cache),
{
    if policy.use_cache {
        let ghost k = key@;
        let entry = CacheEntry { html: share(html), mtime };
        let ghost ev = entry;
        cache.put(key, entry);
        proof {
            old(cache).lemma_shape();
            crate::cache::lemma_store_finds(
                old(cache).shards_view()[crate::cache::shard_of(k)],
                k,
                ev,
                old(cache).shard_capacity(),
            );
        }
    }
}

/// The answer once the theme has rendered a page (`None`: the template is
/// missing or failed): the page with the document's content type, or 500.
pub fn page_reply(
    rendered: Option<&str>,
    policy: &PagePolicy,
    keep_alive: bool,
    date: &str,
    fixed: &str,
) -> (r: Reply)
    ensures
        r.keep_alive == keep_alive,
        match rendered {
            Some(page) => r.status == 200 && r.body@ == vstd::utf8::encode_utf8(page@) && r.head@
                == response_head(200, policy.content_type@, r.body@.len() as u64, keep_alive, date@, Seq::empty(), fixed@),
            None => r.status == 500 && r.body@ == vstd::utf8::encode_utf8("Internal Server Error"@)
                && r.head@ == response_head(500, "text/plain"@, r.body@.len() as u64, keep_alive, date@, Seq::empty(), fixed@),
        },
{
    match rendered {
        Some(page) => send_response(200, page.as_bytes(), policy.content_type.as_str(), keep_alive, date, fixed, None),
        None => send_response(500, "Internal Server Error".as_bytes(), "text/plain", keep_alive, date, fixed, None),
    }
}

} // verus!
