//! Request heads: parsing, keep-alive and the GET-only rule.
use vstd::prelude::*;

use crate::text::{
    chars_of, contains, contains_spec, eq_ignore_ascii_case, eq_ignore_ascii_case_spec,
    trim_end_index, trim_spec, trim_start_index, utf8_of,
};

verus! {

/// The head of a parsed request, as plain values.
pub struct RequestHead {
    pub method: Option<String>,
    pub path: Option<String>,
    /// The minor version of HTTP/1.x.
    pub version: Option<u8>,
    /// Header names and raw values, in arrival order.
    pub headers: Vec<(String, Vec<u8>)>,
}

/// How far the bytes received so far go towards a request head.
pub enum ParseStatus {
    /// A whole head, and the number of bytes it took.
    Complete(RequestHead, usize),
    /// The head is not complete yet.
    Partial,
    /// The bytes cannot start a request.
    Invalid,
}

pub open spec fn opt_string_view(s: Option<String>) -> Option<Seq<char>> {
    match s {
        Some(t) => Some(t@),
        None => None,
    }
}

pub open spec fn headers_view(h: Seq<(String, Vec<u8>)>) -> Seq<(Seq<char>, Seq<u8>)> {
    Seq::new(h.len(), |i: int| (h[i].0@, h[i].1@))
}

/// A request head as plain values: method, path, version and headers.
pub type HeadView = (Option<Seq<char>>, Option<Seq<char>>, Option<u8>, Seq<(Seq<char>, Seq<u8>)>);

impl View for RequestHead {
    type V = HeadView;

    open spec fn view(&self) -> HeadView {
        (opt_string_view(self.method), opt_string_view(self.path), self.version, headers_view(self.headers@))
    }
}

/// The outcome of parsing as plain values: `None` for bytes that cannot
/// start a request, `Some(None)` for an incomplete head, and otherwise the
/// head with the number of bytes it took.
pub open spec fn parse_status_view(p: ParseStatus) -> Option<Option<(HeadView, nat)>> {
    match p {
        ParseStatus::Complete(h, n) => Some(Some((h.view(), n as nat))),
        ParseStatus::Partial => Some(None),
        ParseStatus::Invalid => None,
    }
}

/// What `httparse::Request::parse` makes of a buffer, with room for 64
/// headers.
pub uninterp spec fn request_parse_of(buf: Seq<u8>) -> Option<Option<(HeadView, nat)>>;

/// Relies on `httparse::Request::parse` with 64 header slots; a complete
/// head ends within the buffer (the count is the offset of the body).
#[verifier::external_body]
pub(crate) fn parse_request(buf: &[u8]) -> (r: ParseStatus)
    ensures
        parse_status_view(r) == request_parse_of(buf@),
        r matches ParseStatus::Complete(_, n) ==> n <= buf@.len(),
{
    let mut slots = [httparse::EMPTY_HEADER; 64];
    let mut req = httparse::Request::new(&mut slots);
    match req.parse(buf) {
        Ok(httparse::Status::Complete(n)) => {
            let headers = req.headers.iter().map(|h| (h.name.to_string(), h.value.to_vec())).collect();
            let head = RequestHead { method: req.method.map(|m| m.to_string()), path: req.path.map(|p| p.to_string()), version: req.version, headers };
            ParseStatus::Complete(head, n)
        },
        Ok(httparse::Status::Partial) => ParseStatus::Partial,
        Err(_) => ParseStatus::Invalid,
    }
}

/// What `str::to_lowercase` returns: the Unicode lower case of each
/// character.
pub uninterp spec fn lower_of(s: Seq<char>) -> Seq<char>;

/// Relies on `str::to_lowercase`; the result depends on the characters
/// alone.
#[verifier::external_body]
fn lowercase(s: &str) -> (r: String)
    ensures
        r@ == lower_of(s@),
{
    s.to_lowercase()
}

/// The first header named `name` (ASCII case aside).
pub open spec fn first_header(h: Seq<(Seq<char>, Seq<u8>)>, name: Seq<char>) -> Option<Seq<u8>>
    decreases h.len(),
{
    if h.len() == 0 {
        None
    } else {
        match first_header(h.drop_last(), name) {
            Some(v) => Some(v),
            None => if eq_ignore_ascii_case_spec(h.last().0, name) {
                Some(h.last().1)
            } else {
                None
            },
        }
    }
}

proof fn lemma_first_header_stable(h: Seq<(Seq<char>, Seq<u8>)>, name: Seq<char>, m: int)
    requires
        0 <= m <= h.len(),
        first_header(h.take(m), name) is Some,
    ensures
        first_header(h, name) == first_header(h.take(m), name),
    decreases h.len() - m,
{
    if m < h.len() {
        assert(h.take(m + 1).drop_last() == h.take(m));
        lemma_first_header_stable(h, name, m + 1);
    } else {
        assert(h.take(m) == h);
    }
}

/// The value of the first header named `name`, looked up without ASCII
/// case.
pub fn find_header(headers: &Vec<(String, Vec<u8>)>, name: &str) -> (r: Option<Vec<u8>>)
    ensures
        match r {
            Some(v) => first_header(headers_view(headers@), name@) == Some(v@),
            None => first_header(headers_view(headers@), name@) is None,
        },
{
    let want = chars_of(name);
    let mut i: usize = 0;
    while i < headers.len()
        invariant
            i <= headers.len(),
            want@ == name@,
            first_header(headers_view(headers@).take(i as int), name@) is None,
        decreases headers.len() - i,
    {
        let ghost hv = headers_view(headers@);
        assert(hv.take(i + 1).drop_last() == hv.take(i as int));
        assert(hv.take(i + 1).last() == (headers@[i as int].0@, headers@[i as int].1@));
        let have = chars_of(headers[i].0.as_str());
        if eq_ignore_ascii_case(have.as_slice(), want.as_slice()) {
            let mut v: Vec<u8> = Vec::new();
            let src = &headers[i].1;
            let mut k: usize = 0;
            while k < src.len()
                invariant
                    k <= src.len(),
                    v@ == src@.take(k as int),
                decreases src.len() - k,
            {
                v.push(src[k]);
                k = k + 1;
                assert(src@.take(k as int) == src@.take(k - 1).push(src@[k - 1]));
            }
            assert(src@.take(src@.len() as int) == src@);
            proof {
                lemma_first_header_stable(hv, name@, i + 1);
            }
            return Some(v);
        }
        i = i + 1;
    }
    assert(headers_view(headers@).take(headers@.len() as int) == headers_view(headers@));
    None
}

/// Whether the client asks to keep the connection open: the first
/// `Connection` header decides when it is UTF-8 (`keep-alive` and `close`
/// in any ASCII case, else whether its lower case holds `keep-alive`);
/// without one, HTTP/1.1 keeps it open and HTTP/1.0 does not.
pub open spec fn keep_alive_spec(head: HeadView) -> bool {
    let http11 = head.2 == Some(1u8);
    match first_header(head.3, "connection"@) {
        Some(v) => if vstd::utf8::valid_utf8(v) {
            let t = vstd::utf8::decode_utf8(v);
            if eq_ignore_ascii_case_spec(t, "keep-alive"@) {
                true
            } else if eq_ignore_ascii_case_spec(t, "close"@) {
                false
            } else {
                contains_spec(lower_of(t), "keep-alive"@)
            }
        } else {
            http11
        },
        None => http11,
    }
}

/// Decides keep-alive for a request (see `keep_alive_spec`).
pub fn is_keep_alive(head: &RequestHead) -> (r: bool)
    ensures
        r == keep_alive_spec(head.view()),
{
    let http11 = match head.version {
        Some(v) => v == 1,
        None => false,
    };
    match find_header(&head.headers, "connection") {
        Some(v) => match utf8_of(v.as_slice()) {
            Some(t) => {
                let cs = chars_of(t.as_str());
                let ka = chars_of("keep-alive");
                let cl = chars_of("close");
                if eq_ignore_ascii_case(cs.as_slice(), ka.as_slice()) {
                    true
                } else if eq_ignore_ascii_case(cs.as_slice(), cl.as_slice()) {
                    false
                } else {
                    let low = lowercase(t.as_str());
                    let lc = chars_of(low.as_str());
                    contains(lc.as_slice(), ka.as_slice())
                }
            },
            None => http11,
        },
        None => http11,
    }
}

/// A header that announces a body: a `Content-Length` whose trimmed value
/// is neither empty nor `0` (a value that is not UTF-8 counts as empty),
/// or any `Transfer-Encoding`.
pub open spec fn signals_body(h: (Seq<char>, Seq<u8>)) -> bool {
    if eq_ignore_ascii_case_spec(h.0, "content-length"@) {
        let text = if vstd::utf8::valid_utf8(h.1) {
            vstd::utf8::decode_utf8(h.1)
        } else {
            Seq::empty()
        };
        let v = trim_spec(text);
        v != seq!['0'] && v.len() > 0
    } else {
        eq_ignore_ascii_case_spec(h.0, "transfer-encoding"@)
    }
}

pub open spec fn has_body_spec(headers: Seq<(Seq<char>, Seq<u8>)>) -> bool {
    exists|i: int| 0 <= i < headers.len() && signals_body(#[trigger] headers[i])
}

fn header_signals_body(name: &String, value: &Vec<u8>) -> (r: bool)
    ensures
        r == signals_body((name@, value@)),
{
    let n = chars_of(name.as_str());
    let cl = chars_of("content-length");
    if eq_ignore_ascii_case(n.as_slice(), cl.as_slice()) {
        let text = match utf8_of(value.as_slice()) {
            Some(t) => chars_of(t.as_str()),
            None => Vec::new(),
        };
        let i = trim_start_index(text.as_slice());
        let j = trim_end_index(text.as_slice(), i);
        let zero = j > i && j - i == 1 && text[i] == '0';
        proof {
            let v = text@.subrange(i as int, j as int);
            if j == i + 1 && text[i as int] == '0' {
                assert(v == seq!['0']);
            } else if v == seq!['0'] {
                assert(v[0] == '0');
            }
        }
        !zero && j > i
    } else {
        let te = chars_of("transfer-encoding");
        eq_ignore_ascii_case(n.as_slice(), te.as_slice())
    }
}

/// Whether a request carries, or announces, a body.
pub fn has_body(head: &RequestHead) -> (r: bool)
    ensures
        r == has_body_spec(head.view().3),
{
    let mut i: usize = 0;
    while i < head.headers.len()
        invariant
            i <= head.headers.len(),
            forall|k: int| 0 <= k < i ==> !signals_body(#[trigger] headers_view(head.headers@)[k]),
        decreases head.headers.len() - i,
    {
        if header_signals_body(&head.headers[i].0, &head.headers[i].1) {
            assert(signals_body(headers_view(head.headers@)[i as int]));
            return true;
        }
        i = i + 1;
    }
    false
}

/// A request is served only when its method is GET (a missing method
/// counts as GET) and it carries no body; any other gets 405.
pub open spec fn is_servable_spec(head: HeadView) -> bool {
    let method_is_get = match head.0 {
        Some(m) => m == "GET"@,
        None => true,
    };
    method_is_get && !has_body_spec(head.3)
}

pub fn is_servable(head: &RequestHead) -> (r: bool)
    ensures
        r == is_servable_spec(head.view()),
{
    let get = match &head.method {
        Some(m) => {
            let mc = chars_of(m.as_str());
            proof {
                reveal_strlit("GET");
                if mc@.len() == 3 && mc@[0] == 'G' && mc@[1] == 'E' && mc@[2] == 'T' {
                    assert(mc@ =~= "GET"@);
                }
            }
            mc.len() == 3 && mc[0] == 'G' && mc[1] == 'E' && mc[2] == 'T'
        },
        None => true,
    };
    get && !has_body(head)
}

/// The value of the first `Range` header, when it is UTF-8.
pub fn range_value(head: &RequestHead) -> (r: Option<String>)
    ensures
        match first_header(head.view().3, "range"@) {
            Some(v) => if vstd::utf8::valid_utf8(v) {
                r is Some && r->0@ == vstd::utf8::decode_utf8(v)
            } else {
                r is None
            },
            None => r is None,
        },
{
    match find_header(&head.headers, "range") {
        Some(v) => utf8_of(v.as_slice()),
        None => None,
    }
}

/// The request path to serve (`/` when the head has none).
pub fn request_path(head: &RequestHead) -> (r: String)
    ensures
        r@ == match head.path {
            Some(p) => p@,
            None => "/"@,
        },
{
    match &head.path {
        Some(p) => p.clone(),
        None => "/".to_string(),
    }
}

} // verus!
