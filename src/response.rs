//! Response heads and the small replies built from them.
use vstd::prelude::*;

use crate::range::{byte_range, byte_range_spec, ByteRange};
use crate::text::{contains, contains_spec, chars_of, escaped, escape_html, string_of};

verus! {

/// Decimal digits of `n`, most significant first.
pub open spec fn decimal_digits(n: nat) -> Seq<char>
    decreases n,
{
    if n < 10 {
        seq![((n + 48) as u32) as char]
    } else {
        decimal_digits(n / 10) + seq![((n % 10 + 48) as u32) as char]
    }
}

/// Relies on `itoa::Buffer::format`: the decimal form of the number.
#[verifier::external_body]
fn decimal(n: u64) -> (r: String)
    ensures
        r@ == decimal_digits(n as nat),
{
    itoa::Buffer::new().format(n).to_string()
}

/// The date that `httpdate::fmt_http_date` writes (IMF-fixdate) for a
/// moment given in seconds since 1970.
pub uninterp spec fn http_date_of(secs: u64) -> Seq<char>;

/// Seconds that `httpdate` can still write: before the year 10000.
pub const HTTP_DATE_LIMIT: u64 = 253402300800;

/// Relies on `httpdate::fmt_http_date`, which panics from the year 10000 on.
#[verifier::external_body]
fn http_date(secs: u64) -> (r: String)
    requires
        secs < HTTP_DATE_LIMIT,
    ensures
        r@ == http_date_of(secs),
{
    httpdate::fmt_http_date(std::time::UNIX_EPOCH + std::time::Duration::from_secs(secs))
}

/// Relies on `SystemTime::now`: the clock, in whole seconds since 1970 (0
/// for a clock set before then).
#[verifier::external_body]
fn now_unix_secs() -> u64 {
    std::time::SystemTime::now().duration_since(std::time::UNIX_EPOCH).map(|d| d.as_secs()).unwrap_or(0)
}

/// The `Date` header value for the present moment; a clock past the year
/// 9999 is written as the last second that can be.
pub fn current_http_date() -> (r: String)
    ensures
        exists|secs: u64| secs < HTTP_DATE_LIMIT && r@ == http_date_of(secs),
{
    let now = now_unix_secs();
    let secs = if now < HTTP_DATE_LIMIT {
        now
    } else {
        HTTP_DATE_LIMIT - 1
    };
    http_date(secs)
}

pub open spec fn reason_phrase(status: u16) -> Seq<char> {
    if status == 200 {
        "OK"@
    } else if status == 206 {
        "Partial Content"@
    } else if status == 301 {
        "Moved Permanently"@
    } else if status == 400 {
        "Bad Request"@
    } else if status == 403 {
        "Forbidden"@
    } else if status == 404 {
        "Not Found"@
    } else if status == 405 {
        "Method Not Allowed"@
    } else if status == 408 {
        "Request Timeout"@
    } else if status == 416 {
        "Range Not Satisfiable"@
    } else if status == 431 {
        "Header Too Large"@
    } else if status == 500 {
        "Internal Server Error"@
    } else if status == 503 {
        "Service Unavailable"@
    } else {
        "Error"@
    }
}

/// The reason phrase written after a status code.
pub fn reason(status: u16) -> (r: &'static str)
    ensures
        r@ == reason_phrase(status),
{
    if status == 200 {
        "OK"
    } else if status == 206 {
        "Partial Content"
    } else if status == 301 {
        "Moved Permanently"
    } else if status == 400 {
        "Bad Request"
    } else if status == 403 {
        "Forbidden"
    } else if status == 404 {
        "Not Found"
    } else if status == 405 {
        "Method Not Allowed"
    } else if status == 408 {
        "Request Timeout"
    } else if status == 416 {
        "Range Not Satisfiable"
    } else if status == 431 {
        "Header Too Large"
    } else if status == 500 {
        "Internal Server Error"
    } else if status == 503 {
        "Service Unavailable"
    } else {
        "Error"
    }
}

pub open spec fn connection_token(keep_alive: bool) -> Seq<char> {
    if keep_alive {
        "keep-alive"@
    } else {
        "close"@
    }
}

/// The head of a response: status line, `Date`, `Content-Type`,
/// `Content-Length`, `Connection`, the extra header lines, the server's
/// fixed header lines, and the blank line.
pub open spec fn response_head(
    status: u16,
    content_type: Seq<char>,
    length: u64,
    keep_alive: bool,
    date: Seq<char>,
    extra: Seq<char>,
    fixed: Seq<char>,
) -> Seq<char> {
    "HTTP/1.1 "@ + decimal_digits(status as nat) + " "@ + reason_phrase(status) + "\r\nDate: "@
        + date + "\r\nContent-Type: "@ + content_type + "\r\nContent-Length: "@ + decimal_digits(
        length as nat,
    ) + "\r\nConnection: "@ + connection_token(keep_alive) + "\r\n"@ + extra + fixed + "\r\n"@
}

pub open spec fn opt_text(s: Option<&str>) -> Seq<char> {
    match s {
        Some(t) => t@,
        None => Seq::empty(),
    }
}

/// Writes the head of a response for the given date.
pub fn write_head(
    status: u16,
    content_type: &str,
    length: u64,
    keep_alive: bool,
    date: &str,
    extra: Option<&str>,
    fixed: &str,
) -> (r: String)
    ensures
        r@ == response_head(status, content_type@, length, keep_alive, date@, opt_text(extra), fixed@),
{
    let mut s = String::new();
    s.append("HTTP/1.1 ");
    let code = decimal(status as u64);
    s.append(code.as_str());
    s.append(" ");
    s.append(reason(status));
    s.append("\r\nDate: ");
    s.append(date);
    s.append("\r\nContent-Type: ");
    s.append(content_type);
    s.append("\r\nContent-Length: ");
    let len = decimal(length);
    s.append(len.as_str());
    s.append("\r\nConnection: ");
    if keep_alive {
        s.append("keep-alive");
    } else {
        s.append("close");
    }
    s.append("\r\n");
    match extra {
        Some(e) => s.append(e),
        None => {},
    }
    s.append(fixed);
    s.append("\r\n");
    s
}

/// The head of a response stamped with the present date.
pub fn send_headers(
    status: u16,
    content_type: &str,
    length: u64,
    keep_alive: bool,
    fixed: &str,
    extra: Option<&str>,
) -> (r: String)
    ensures
        exists|secs: u64|
            secs < HTTP_DATE_LIMIT && r@ == response_head(
                status,
                content_type@,
                length,
                keep_alive,
                http_date_of(secs),
                opt_text(extra),
                fixed@,
            ),
{
    let date = current_http_date();
    write_head(status, content_type, length, keep_alive, date.as_str(), extra, fixed)
}

/// A complete response: its head, its body, whether the connection stays
/// open after it, and its status.
pub struct Reply {
    pub head: String,
    pub body: Vec<u8>,
    pub keep_alive: bool,
    pub status: u16,
}

fn copy_bytes(b: &[u8]) -> (r: Vec<u8>)
    ensures
        r@ == b@,
{
    let mut r: Vec<u8> = Vec::new();
    let mut i: usize = 0;
    while i < b.len()
        invariant
            i <= b.len(),
            r@ == b@.take(i as int),
        decreases b.len() - i,
    {
        r.push(b[i]);
        i = i + 1;
        assert(b@.take(i as int) == b@.take(i - 1).push(b@[i - 1]));
    }
    assert(b@.take(b@.len() as int) == b@);
    r
}

/// A response that carries `body` in full.
pub fn send_response(
    status: u16,
    body: &[u8],
    content_type: &str,
    keep_alive: bool,
    date: &str,
    fixed: &str,
    extra: Option<&str>,
) -> (r: Reply)
    ensures
        r.head@ == response_head(
            status,
            content_type@,
            body@.len() as u64,
            keep_alive,
            date@,
            opt_text(extra),
            fixed@,
        ),
        r.body@ == body@,
        r.keep_alive == keep_alive,
        r.status == status,
{
    let head = write_head(status, content_type, body.len() as u64, keep_alive, date, extra, fixed);
    Reply { head, body: copy_bytes(body), keep_alive, status }
}

/// The content type of an error body: HTML when it starts with `<`.
pub open spec fn error_content_type(message: Seq<u8>) -> Seq<char> {
    if message.len() > 0 && message[0] == 0x3c {
        "text/html; charset=utf-8"@
    } else {
        "text/plain"@
    }
}

/// A response whose body is a short message, typed by its first byte.
pub fn send_error(status: u16, message: &[u8], keep_alive: bool, date: &str, fixed: &str) -> (r: Reply)
    ensures
        r.head@ == response_head(
            status,
            error_content_type(message@),
            message@.len() as u64,
            keep_alive,
            date@,
            Seq::empty(),
            fixed@,
        ),
        r.body@ == message@,
        r.keep_alive == keep_alive,
        r.status == status,
{
    let content_type = if message.len() > 0 && message[0] == 0x3c {
        "text/html; charset=utf-8"
    } else {
        "text/plain"
    };
    send_response(status, message, content_type, keep_alive, date, fixed, None)
}

pub open spec fn content_range_header(start: u64, end: u64, len: u64) -> Seq<char> {
    "Content-Range: bytes "@ + decimal_digits(start as nat) + "-"@ + decimal_digits(end as nat)
        + "/"@ + decimal_digits(len as nat) + "\r\n"@
}

/// The extra header lines of a static response: caching for anything but
/// HTML, byte ranges offered, and the range carried when it is partial.
pub open spec fn static_extra(mime: Seq<char>, range: ByteRange, len: u64) -> Seq<char> {
    (if contains_spec(mime, "html"@) {
        Seq::empty()
    } else {
        "Cache-Control: public, max-age=86400\r\n"@
    }) + "Accept-Ranges: bytes\r\n"@ + match range {
        ByteRange::Partial { start, end } => content_range_header(start, end, len),
        _ => Seq::empty(),
    }
}

/// A reply to a static-file request: the head, a body of its own (only for
/// an unsatisfiable range), and which bytes of the file follow the head.
pub struct StaticReply {
    pub head: String,
    pub body: Vec<u8>,
    /// First byte of the file to send.
    pub copy_start: u64,
    /// How many bytes of the file to send.
    pub copy_len: u64,
    pub status: u16,
    pub keep_alive: bool,
}

pub open spec fn opt_view(v: Option<&str>) -> Option<Seq<char>> {
    match v {
        Some(t) => Some(t@),
        None => None,
    }
}

/// The reply to a request for a static file of `len` bytes and type
/// `mime`, given the value of its first `Range` header: the whole file
/// (200), the bytes asked for (206), or 416 when they lie outside it.
pub fn static_reply(
    range_value: Option<&str>,
    len: u64,
    mime: &str,
    keep_alive: bool,
    date: &str,
    fixed: &str,
) -> (r: StaticReply)
    ensures
        r.keep_alive == keep_alive,
        match byte_range_spec(opt_view(range_value), len) {
            ByteRange::Unsatisfiable => {
                &&& r.status == 416
                &&& r.head@ == response_head(
                    416,
                    "text/plain"@,
                    21,
                    keep_alive,
                    date@,
                    "Content-Range: bytes */"@ + decimal_digits(len as nat) + "\r\n"@,
                    fixed@,
                )
                &&& r.body@ == vstd::utf8::encode_utf8("Range Not Satisfiable"@)
                &&& r.copy_len == 0
            },
            ByteRange::Full => {
                &&& r.status == 200
                &&& r.head@ == response_head(
                    200,
                    mime@,
                    len,
                    keep_alive,
                    date@,
                    static_extra(mime@, ByteRange::Full, len),
                    fixed@,
                )
                &&& r.body@.len() == 0
                &&& r.copy_start == 0
                &&& r.copy_len == len
            },
            ByteRange::Partial { start, end } => {
                &&& r.status == 206
                &&& start <= end < len
                &&& r.head@ == response_head(
                    206,
                    mime@,
                    (end - start + 1) as u64,
                    keep_alive,
                    date@,
                    static_extra(mime@, ByteRange::Partial { start, end }, len),
                    fixed@,
                )
                &&& r.body@.len() == 0
                &&& r.copy_start == start
                &&& r.copy_len == end - start + 1
            },
        },
{
    let range = byte_range(range_value, len);
    match range {
        ByteRange::Unsatisfiable => {
            let mut extra = String::new();
            extra.append("Content-Range: bytes */");
            let l = decimal(len);
            extra.append(l.as_str());
            extra.append("\r\n");
            let head = write_head(416, "text/plain", 21, keep_alive, date, Some(extra.as_str()), fixed);
            let msg = "Range Not Satisfiable";
            StaticReply {
                head,
                body: copy_bytes(msg.as_bytes()),
                copy_start: 0,
                copy_len: 0,
                status: 416,
                keep_alive,
            }
        },
        _ => {
            let mime_chars = chars_of(mime);
            let html = ['h', 't', 'm', 'l'];
            proof {
                reveal_strlit("html");
                assert(html@ =~= "html"@);
            }
            let mut extra = String::new();
            if !contains(mime_chars.as_slice(), &html) {
                extra.append("Cache-Control: public, max-age=86400\r\n");
            }
            extra.append("Accept-Ranges: bytes\r\n");
            let (status, start, count) = match range {
                ByteRange::Partial { start, end } => {
                    extra.append("Content-Range: bytes ");
                    let a = decimal(start);
                    extra.append(a.as_str());
                    extra.append("-");
                    let b = decimal(end);
                    extra.append(b.as_str());
                    extra.append("/");
                    let l = decimal(len);
                    extra.append(l.as_str());
                    extra.append("\r\n");
                    (206u16, start, end - start + 1)
                },
                _ => (200u16, 0u64, len),
            };
            let head = write_head(status, mime, count, keep_alive, date, Some(extra.as_str()), fixed);
            StaticReply {
                head,
                body: Vec::new(),
                copy_start: start,
                copy_len: count,
                status,
                keep_alive,
            }
        },
    }
}

/// Bytes that a request path written into a `Location` header must
/// carry percent-encoded: controls, non-ASCII bytes, and
/// space `"` `#` `<` `>` `?` `` ` `` `{` `}`.
pub open spec fn needs_percent(b: u8) -> bool {
    ||| b < 0x20
    ||| b >= 0x7f
    ||| b == 0x20 || b == 0x22 || b == 0x23 || b == 0x3c || b == 0x3e
    ||| b == 0x3f || b == 0x60 || b == 0x7b || b == 0x7d
}

pub open spec fn hex_upper(d: int) -> char {
    if d < 10 {
        ((d + 48) as u32) as char
    } else {
        ((d + 55) as u32) as char
    }
}

pub open spec fn percent_escape(b: u8) -> Seq<char> {
    seq!['%', hex_upper(b as int / 16), hex_upper(b as int % 16)]
}

pub open spec fn location_encoded(bytes: Seq<u8>) -> Seq<char>
    decreases bytes.len(),
{
    if bytes.len() == 0 {
        Seq::empty()
    } else {
        location_encoded(bytes.drop_last()) + if needs_percent(bytes.last()) {
            percent_escape(bytes.last())
        } else {
            seq![bytes.last() as char]
        }
    }
}

/// Relies on `percent_encoding::percent_encode_byte`: `%` and the two
/// upper-case hex digits of the byte.
#[verifier::external_body]
fn percent_byte(b: u8) -> (r: &'static str)
    ensures
        r@ == percent_escape(b),
{
    percent_encoding::percent_encode_byte(b)
}

/// The `Location` of the directory that a request path names: the path
/// with a `/` added, its UTF-8 bytes percent-encoded where needed.
pub fn directory_location(normalized: &str) -> (r: String)
    ensures
        r@ == location_encoded(vstd::utf8::encode_utf8(normalized@ + "/"@)),
{
    let mut with_slash = String::new();
    with_slash.append(normalized);
    with_slash.append("/");
    let bytes = with_slash.as_str().as_bytes();
    let mut out = String::new();
    let mut i: usize = 0;
    while i < bytes.len()
        invariant
            i <= bytes.len(),
            bytes@ == vstd::utf8::encode_utf8(normalized@ + "/"@),
            out@ == location_encoded(bytes@.take(i as int)),
        decreases bytes.len() - i,
    {
        let b = bytes[i];
        assert(bytes@.take(i + 1).drop_last() == bytes@.take(i as int));
        assert(bytes@.take(i + 1).last() == b);
        if b < 0x20 || b >= 0x7f || b == 0x20 || b == 0x22 || b == 0x23 || b == 0x3c || b == 0x3e
            || b == 0x3f || b == 0x60 || b == 0x7b || b == 0x7d {
            out.append(percent_byte(b));
        } else {
            let one = [b as char];
            out.append(string_of_array(&one).as_str());
        }
        i = i + 1;
    }
    assert(bytes@.take(bytes@.len() as int) == bytes@);
    out
}

fn string_of_array(a: &[char; 1]) -> (r: String)
    ensures
        r@ == seq![a[0]],
{
    let mut v: Vec<char> = Vec::new();
    v.push(a[0]);
    string_of(&v)
}

pub open spec fn redirect_body(normalized: Seq<char>, location: Seq<char>) -> Seq<char> {
    "301 Moved Permanently: <a href=\""@ + location + "\">"@ + escaped(normalized) + "/</a>"@
}

/// The permanent redirect from a directory requested without its trailing
/// `/` to the same path with it.
pub fn redirect_reply(normalized: &str, keep_alive: bool, date: &str, fixed: &str) -> (r: Reply)
    ensures
        ({
            let location = location_encoded(vstd::utf8::encode_utf8(normalized@ + "/"@));
            let body = vstd::utf8::encode_utf8(redirect_body(normalized@, location));
            &&& r.status == 301
            &&& r.keep_alive == keep_alive
            &&& r.body@ == body
            &&& r.head@ == response_head(
                301,
                "text/html"@,
                body.len() as u64,
                keep_alive,
                date@,
                "Location: "@ + location + "\r\n"@,
                fixed@,
            )
        }),
{
    let location = directory_location(normalized);
    let escaped_path = escape_html(normalized);
    let mut body = String::new();
    body.append("301 Moved Permanently: <a href=\"");
    body.append(location.as_str());
    body.append("\">");
    body.append(escaped_path.as_str());
    body.append("/</a>");
    let mut extra = String::new();
    extra.append("Location: ");
    extra.append(location.as_str());
    extra.append("\r\n");
    let bytes = body.as_str().as_bytes();
    let head = write_head(301, "text/html", bytes.len() as u64, keep_alive, date, Some(extra.as_str()), fixed);
    Reply { head, body: copy_bytes(bytes), keep_alive, status: 301 }
}

/// What an overloaded server writes to a connection it turns away before
/// serving it.
pub fn overload_response() -> (r: &'static str)
    ensures
        r@ == "HTTP/1.1 503 Service Unavailable\r\nConnection: close\r\nContent-Length: 0\r\n\r\n"@,
{
    "HTTP/1.1 503 Service Unavailable\r\nConnection: close\r\nContent-Length: 0\r\n\r\n"
}

} // verus!
