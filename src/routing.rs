//! From a request path to the files that may answer it.
use vstd::prelude::*;

use crate::paths::{secure_join, secure_join_spec};
use crate::text::{chars_of, contains, contains_spec, string_of};

verus! {

pub open spec fn hex_value(b: u8) -> Option<u8> {
    if 0x30 <= b <= 0x39 {
        Some((b - 0x30) as u8)
    } else if 0x41 <= b <= 0x46 {
        Some((b - 0x41 + 10) as u8)
    } else if 0x61 <= b <= 0x66 {
        Some((b - 0x61 + 10) as u8)
    } else {
        None
    }
}

/// Percent-decoding of bytes: `%` and two hex digits give one byte; any
/// other byte, a lone `%` included, stands for itself.
pub open spec fn percent_decode_bytes(b: Seq<u8>) -> Seq<u8>
    decreases b.len(),
{
    if b.len() == 0 {
        Seq::empty()
    } else if b.len() >= 3 && b[0] == 0x25 && hex_value(b[1]) is Some && hex_value(b[2]) is Some {
        seq![(hex_value(b[1])->0 * 16 + hex_value(b[2])->0) as u8] + percent_decode_bytes(
            b.subrange(3, b.len() as int),
        )
    } else {
        seq![b[0]] + percent_decode_bytes(b.drop_first())
    }
}

/// Relies on `percent_encoding::percent_decode_str(..).decode_utf8()`: the
/// bytes of `s` are percent-decoded, and the result is kept only when it is
/// well-formed UTF-8.
#[verifier::external_body]
fn percent_decode_utf8(s: &str) -> (r: Option<String>)
    ensures
        r is Some <==> vstd::utf8::valid_utf8(percent_decode_bytes(vstd::utf8::encode_utf8(s@))),
        r matches Some(d) ==> d@ == vstd::utf8::decode_utf8(
            percent_decode_bytes(vstd::utf8::encode_utf8(s@)),
        ),
{
    percent_encoding::percent_decode_str(s).decode_utf8().ok().map(|c| c.into_owned())
}

/// The request path as the server reads it: percent-decoded when that gives
/// UTF-8 (else taken as it came), cut at the first `?`, with every `\` made
/// a `/`.
pub open spec fn normalized_path(req: Seq<char>) -> Seq<char> {
    let bytes = percent_decode_bytes(vstd::utf8::encode_utf8(req));
    let decoded = if vstd::utf8::valid_utf8(bytes) {
        vstd::utf8::decode_utf8(bytes)
    } else {
        req
    };
    slashes_unified(before_query(decoded))
}

pub open spec fn before_query(s: Seq<char>) -> Seq<char>
    decreases s.len(),
{
    if s.len() == 0 {
        s
    } else if s[0] == '?' {
        Seq::empty()
    } else {
        seq![s[0]] + before_query(s.drop_first())
    }
}

pub open spec fn slashes_unified(s: Seq<char>) -> Seq<char> {
    Seq::new(s.len(), |i: int| if s[i] == '\\' { '/' } else { s[i] })
}

/// A request path that is refused before any lookup: it holds `..` or
/// `/.`, or starts with `.`.
pub open spec fn is_forbidden_spec(n: Seq<char>) -> bool {
    ||| contains_spec(n, seq!['.', '.'])
    ||| contains_spec(n, seq!['/', '.'])
    ||| (n.len() > 0 && n[0] == '.')
}

pub open spec fn leading_slashes_removed(s: Seq<char>) -> Seq<char>
    decreases s.len(),
{
    if s.len() > 0 && s[0] == '/' {
        leading_slashes_removed(s.drop_first())
    } else {
        s
    }
}

/// Where a request may be answered from, relative to the content root.
pub struct RequestTarget {
    /// The normalized request path.
    pub normalized: String,
    /// The normalized path without its leading slashes.
    pub target: String,
    /// The request names a directory (it ends in `/`).
    pub is_dir: bool,
    /// The Markdown document that renders the request.
    pub md_target: String,
    /// The static file that answers the request.
    pub static_target: String,
}

pub open spec fn md_target_spec(target: Seq<char>, is_dir: bool) -> Seq<char> {
    if is_dir {
        target + seq!['i', 'n', 'd', 'e', 'x', '.', 'm', 'd']
    } else {
        target + seq!['.', 'm', 'd']
    }
}

pub open spec fn static_target_spec(target: Seq<char>, is_dir: bool) -> Seq<char> {
    if is_dir {
        target + seq!['i', 'n', 'd', 'e', 'x', '.', 'h', 't', 'm', 'l']
    } else {
        target
    }
}

impl RequestTarget {
    /// The target that the request path `req` names, once normalized.
    pub open spec fn of(self, req: Seq<char>) -> bool {
        let n = normalized_path(req);
        let t = leading_slashes_removed(n);
        let d = n.len() > 0 && n.last() == '/';
        &&& self.normalized@ == n
        &&& self.target@ == t
        &&& self.is_dir == d
        &&& self.md_target@ == md_target_spec(t, d)
        &&& self.static_target@ == static_target_spec(t, d)
    }
}

fn before_query_exec(s: &Vec<char>) -> (r: Vec<char>)
    ensures
        r@ == slashes_unified(before_query(s@)),
{
    let mut r: Vec<char> = Vec::new();
    let mut i: usize = 0;
    assert(s@.subrange(0, s@.len() as int) == s@);
    while i < s.len() && s[i] != '?'
        invariant
            i <= s.len(),
            forall|k: int| 0 <= k < i ==> s@[k] != '?',
            before_query(s@) == r@ + before_query(s@.subrange(i as int, s@.len() as int)),
            r@.len() == i,
            forall|k: int| 0 <= k < i ==> #[trigger] r@[k] == s@[k],
        decreases s.len() - i,
    {
        let c = s[i];
        let ghost tail = s@.subrange(i as int, s@.len() as int);
        assert(tail.drop_first() == s@.subrange(i + 1, s@.len() as int));
        assert(before_query(tail) == seq![c] + before_query(tail.drop_first()));
        let ghost prev = r@;
        let ghost bq = before_query(s@.subrange(i + 1, s@.len() as int));
        r.push(c);
        assert(prev + (seq![c] + bq) == r@ + bq);
        i = i + 1;
    }
    assert(before_query(s@.subrange(i as int, s@.len() as int)) == Seq::<char>::empty()) by {
        let tail = s@.subrange(i as int, s@.len() as int);
        if tail.len() > 0 {
            assert(tail[0] == '?');
        }
    }
    assert(before_query(s@) == r@);
    let mut j: usize = 0;
    let ghost raw = r@;
    while j < r.len()
        invariant
            j <= r.len(),
            r@.len() == raw.len(),
            forall|k: int| 0 <= k < j ==> #[trigger] r@[k] == (if raw[k] == '\\' { '/' } else { raw[k] }),
            forall|k: int| j <= k < r@.len() ==> #[trigger] r@[k] == raw[k],
        decreases r.len() - j,
    {
        if r[j] == '\\' {
            r.set(j, '/');
        }
        j = j + 1;
    }
    assert(r@ =~= slashes_unified(raw));
    r
}

/// The request path as the server reads it (see `normalized_path`).
pub fn normalize_request_path(req: &str) -> (r: Vec<char>)
    ensures
        r@ == normalized_path(req@),
{
    let decoded = match percent_decode_utf8(req) {
        Some(d) => chars_of(d.as_str()),
        None => chars_of(req),
    };
    before_query_exec(&decoded)
}

/// Whether a normalized request path is refused outright.
pub fn is_forbidden(n: &[char]) -> (r: bool)
    ensures
        r == is_forbidden_spec(n@),
{
    contains(n, &['.', '.']) || contains(n, &['/', '.']) || (n.len() > 0 && n[0] == '.')
}

fn push_str_chars(out: &mut Vec<char>, s: &[char])
    ensures
        final(out)@ == old(out)@ + s@,
{
    let mut i: usize = 0;
    while i < s.len()
        invariant
            i <= s.len(),
            out@ == old(out)@ + s@.take(i as int),
        decreases s.len() - i,
    {
        out.push(s[i]);
        i = i + 1;
        assert(s@.take(i as int) == s@.take(i - 1).push(s@[i - 1]));
    }
    assert(s@.take(s@.len() as int) == s@);
}

/// Reads a request path into the places that may answer it, or `None`
/// when the path is refused (it holds `..` or `/.`, or starts with `.`).
pub fn plan_target(req_path: &str) -> (r: Option<RequestTarget>)
    ensures
        r is None <==> is_forbidden_spec(normalized_path(req_path@)),
        r matches Some(t) ==> t.of(req_path@),
{
    let n = normalize_request_path(req_path);
    if is_forbidden(n.as_slice()) {
        return None;
    }
    let mut i: usize = 0;
    assert(n@.subrange(0, n@.len() as int) == n@);
    while i < n.len() && n[i] == '/'
        invariant
            i <= n.len(),
            leading_slashes_removed(n@) == leading_slashes_removed(n@.subrange(i as int, n@.len() as int)),
        decreases n.len() - i,
    {
        assert(n@.subrange(i as int, n@.len() as int).drop_first() == n@.subrange(i + 1, n@.len() as int));
        i = i + 1;
    }
    let mut target: Vec<char> = Vec::new();
    let mut k: usize = i;
    while k < n.len()
        invariant
            i <= k <= n.len(),
            target@ == n@.subrange(i as int, k as int),
        decreases n.len() - k,
    {
        target.push(n[k]);
        k = k + 1;
    }
    let is_dir = n.len() > 0 && n[n.len() - 1] == '/';
    let mut md: Vec<char> = target.clone();
    let mut st: Vec<char> = target.clone();
    assert(md@ == target@ && st@ == target@);
    if is_dir {
        push_str_chars(&mut md, &['i', 'n', 'd', 'e', 'x', '.', 'm', 'd']);
        push_str_chars(&mut st, &['i', 'n', 'd', 'e', 'x', '.', 'h', 't', 'm', 'l']);
    } else {
        push_str_chars(&mut md, &['.', 'm', 'd']);
    }
    Some(
        RequestTarget {
            normalized: string_of(&n),
            target: string_of(&target),
            is_dir,
            md_target: string_of(&md),
            static_target: string_of(&st),
        },
    )
}

/// A file-system lookup that may answer a request, tried in order until
/// one succeeds.
pub enum Lookup {
    /// Render this Markdown document, if it is a regular file.
    Markdown(String),
    /// Redirect to the directory's path with a `/`, if this is a directory.
    Directory(String),
    /// Serve this file as it is, if it resolves under the root.
    Static(String),
}

pub open spec fn lookup_view(l: Lookup) -> (int, Seq<char>) {
    match l {
        Lookup::Markdown(p) => (0, p@),
        Lookup::Directory(p) => (1, p@),
        Lookup::Static(p) => (2, p@),
    }
}

pub open spec fn opt_step(kind: int, p: Option<Seq<char>>) -> Seq<(int, Seq<char>)> {
    match p {
        Some(q) => seq![(kind, q)],
        None => Seq::empty(),
    }
}

/// The lookups for a request under the content root `base`: its Markdown
/// document, then (for a path without a trailing `/`) the directory it
/// may name, then its static file; a candidate that would leave the root
/// is skipped.
pub open spec fn lookups_spec(base: Seq<char>, t: RequestTarget) -> Seq<(int, Seq<char>)> {
    opt_step(0, secure_join_spec(base, t.md_target@)) + (if t.is_dir {
        Seq::empty()
    } else {
        opt_step(1, secure_join_spec(base, t.target@))
    }) + opt_step(2, secure_join_spec(base, t.static_target@))
}

/// Lists the lookups for a request (see `lookups_spec`).
pub fn lookups(base: &str, t: &RequestTarget) -> (r: Vec<Lookup>)
    ensures
        Seq::new(r@.len(), |i: int| lookup_view(r@[i])) == lookups_spec(base@, *t),
{
    let mut r: Vec<Lookup> = Vec::new();
    let ghost want = lookups_spec(base@, *t);
    match secure_join(base, t.md_target.as_str()) {
        Some(p) => r.push(Lookup::Markdown(p)),
        None => {},
    }
    let ghost first = opt_step(0, secure_join_spec(base@, t.md_target@));
    assert(Seq::new(r@.len(), |i: int| lookup_view(r@[i])) =~= first);
    if !t.is_dir {
        match secure_join(base, t.target.as_str()) {
            Some(p) => r.push(Lookup::Directory(p)),
            None => {},
        }
    }
    let ghost second = first + (if t.is_dir {
        Seq::empty()
    } else {
        opt_step(1, secure_join_spec(base@, t.target@))
    });
    assert(Seq::new(r@.len(), |i: int| lookup_view(r@[i])) =~= second);
    match secure_join(base, t.static_target.as_str()) {
        Some(p) => r.push(Lookup::Static(p)),
        None => {},
    }
    assert(Seq::new(r@.len(), |i: int| lookup_view(r@[i])) =~= want);
    r
}

/// The media type that `mime_guess` gives a path, from its extension.
pub uninterp spec fn mime_of(path: Seq<char>) -> Seq<char>;

/// Relies on `mime_guess::from_path(..).first_or_octet_stream()`: the
/// first media type known for the path's extension, else
/// `application/octet-stream`; it reads no file.
#[verifier::external_body]
pub fn get_mime_type(path: &str) -> (r: String)
    ensures
        r@ == mime_of(path@),
{
    mime_guess::from_path(std::path::Path::new(path)).first_or_octet_stream().to_string()
}

} // verus!
