//! Pieces of the HTTP/1.1 wire format.

use crate::num::{self, dec};
use crate::request::{self, TextMap};
use crate::text::cat8;
use vstd::prelude::*;

verus! {

/// Whether an empty line starts at `i`: the end of a line twice.
pub open spec fn blank_line_at(b: Seq<u8>, i: int) -> bool {
    0 <= i && i + 4 <= b.len() && b[i] == 0x0d && b[i + 1] == 0x0a && b[i + 2] == 0x0d && b[i + 3] == 0x0a
}

/// Whether `r` is where the first empty line starts, or nothing where there is none.
pub open spec fn first_blank_line(b: Seq<u8>, r: Option<int>) -> bool {
    match r {
        Some(i) => blank_line_at(b, i) && forall|j: int| 0 <= j < i ==> !#[trigger] blank_line_at(b, j),
        None => forall|j: int| !#[trigger] blank_line_at(b, j),
    }
}

pub open spec fn opt_int(r: Option<usize>) -> Option<int> {
    match r {
        Some(i) => Some(i as int),
        None => None,
    }
}

/// Where the first empty line starts.
pub fn find_double_crlf(b: &[u8]) -> (r: Option<usize>)
    ensures
        first_blank_line(b@, opt_int(r)),
{
    let n: usize = b.len();
    if n < 4 {
        return None;
    }
    let mut i: usize = 0;
    while i <= n - 4
        invariant
            n == b@.len(),
            4 <= n,
            i <= n - 3,
            forall|j: int| 0 <= j < i ==> !#[trigger] blank_line_at(b@, j),
        decreases n - i,
    {
        if b[i] == 0x0d && b[i + 1] == 0x0a && b[i + 2] == 0x0d && b[i + 3] == 0x0a {
            assert(blank_line_at(b@, i as int));
            return Some(i);
        }
        i += 1;
    }
    None
}

/// What stands behind the first empty line.
pub fn after_head(b: &[u8]) -> (r: Option<Vec<u8>>)
    ensures
        r is None <==> forall|j: int| !#[trigger] blank_line_at(b@, j),
        r matches Some(body) ==> exists|i: int| first_blank_line(b@, Some(i)) && body@ == #[trigger] b@.skip(i + 4),
{
    match find_double_crlf(b) {
        None => None,
        Some(i) => {
            let n: usize = b.len();
            assert(blank_line_at(b@, i as int) && n == b@.len());
            let body = tail(b, i + 4);
            assert(body@ == b@.skip(i as int + 4));
            Some(body)
        },
    }
}

/// The bytes from `from` on.
pub fn tail(b: &[u8], from: usize) -> (r: Vec<u8>)
    requires
        from <= b@.len(),
    ensures
        r@ == b@.skip(from as int),
{
    let mut out: Vec<u8> = Vec::new();
    let mut i: usize = from;
    while i < b.len()
        invariant
            from <= i <= b@.len(),
            out@ == b@.subrange(from as int, i as int),
        decreases b@.len() - i,
    {
        out.push(b[i]);
        i += 1;
        assert(out@ =~= b@.subrange(from as int, i as int));
    }
    assert(out@ =~= b@.skip(from as int));
    out
}

/// The first `to` bytes.
pub fn front(b: &[u8], to: usize) -> (r: Vec<u8>)
    requires
        to <= b@.len(),
    ensures
        r@ == b@.take(to as int),
{
    let mut out: Vec<u8> = Vec::new();
    for i in 0..to
        invariant
            to <= b@.len(),
            out@ == b@.take(i as int),
    {
        out.push(b[i]);
        assert(out@ =~= b@.take(i + 1));
    }
    out
}

pub open spec fn reason_text(code: u16) -> Seq<char> {
    if code == 201 {
        "Created"@
    } else if code == 204 {
        "No Content"@
    } else if code == 301 {
        "Moved Permanently"@
    } else if code == 400 {
        "Bad Request"@
    } else if code == 401 {
        "Unauthorized"@
    } else if code == 403 {
        "Forbidden"@
    } else if code == 404 {
        "Not Found"@
    } else if code == 405 {
        "Method Not Allowed"@
    } else if code == 500 {
        "Internal Server Error"@
    } else {
        "OK"@
    }
}

/// The phrase that goes with a status.
pub fn reason(code: u16) -> (r: &'static str)
    ensures
        r@ == reason_text(code),
{
    match code {
        201 => "Created",
        204 => "No Content",
        301 => "Moved Permanently",
        400 => "Bad Request",
        401 => "Unauthorized",
        403 => "Forbidden",
        404 => "Not Found",
        405 => "Method Not Allowed",
        500 => "Internal Server Error",
        _ => "OK",
    }
}

/// The head of an answer of the admin server.
pub open spec fn head_text(status: u16, ctype: Seq<char>, len: nat) -> Seq<char> {
    "HTTP/1.1 "@ + num::dec_text(status as nat) + " "@ + reason_text(status) + "\r\ncontent-type: "@ + ctype
        + "\r\ncontent-length: "@ + num::dec_text(len)
        + "\r\ncache-control: no-store\r\nx-content-type-options: nosniff\r\nconnection: close\r\n\r\n"@
}

pub fn response_head(status: u16, ctype: &str, len: usize) -> (r: String)
    ensures
        r@ == head_text(status, ctype@, len as nat),
{
    let mut out = cat8(
        "HTTP/1.1 ",
        dec(status as u64).as_str(),
        " ",
        reason(status),
        "\r\ncontent-type: ",
        ctype,
        "\r\ncontent-length: ",
        dec(len as u64).as_str(),
    );
    out.append("\r\ncache-control: no-store\r\nx-content-type-options: nosniff\r\nconnection: close\r\n\r\n");
    out
}

/// The bytes of a text.
pub fn bytes_of(s: &str) -> (r: Vec<u8>)
    ensures
        r@ == vstd::utf8::encode_utf8(s@),
{
    let b = s.as_bytes();
    let out = tail(b, 0);
    assert(b@.skip(0) =~= b@);
    out
}

/// An answer of the proxy: its status, its headers by name and its body.
#[derive(Debug)]
pub struct Reply {
    pub status: u16,
    pub headers: TextMap,
    pub body: Vec<u8>,
}

#[verifier::ext_equal]
pub struct ReplyView {
    pub status: u16,
    pub headers: Seq<request::Pair>,
    pub body: Seq<u8>,
}

impl View for Reply {
    type V = ReplyView;

    open spec fn view(&self) -> ReplyView {
        ReplyView { status: self.status, headers: self.headers@, body: self.body@ }
    }
}

impl ReplyView {
    /// An answer without headers.
    pub open spec fn bare(status: u16, body: Seq<u8>) -> ReplyView {
        ReplyView { status, headers: seq![], body }
    }

    /// The answer with one more header, or with another value of a header that it has.
    pub open spec fn with(self, name: Seq<char>, value: Seq<char>) -> ReplyView {
        ReplyView { headers: request::put(self.headers, name, value), ..self }
    }

    /// An answer with the headers that every answer of the proxy has.
    pub open spec fn new(status: u16, ctype: Seq<char>, body: Seq<u8>) -> ReplyView {
        ReplyView::bare(status, body).with("content-type"@, ctype).with(
            "content-length"@,
            num::dec_text(body.len()),
        ).with("x-waf"@, "2t1"@).with("cache-control"@, "no-store, private"@)
    }
}

impl Reply {
    pub fn bare(status: u16, body: Vec<u8>) -> (r: Reply)
        ensures
            r@ == ReplyView::bare(status, body@),
    {
        Reply { status, headers: TextMap::new(), body }
    }

    /// Sets a header.
    pub fn with(self, name: &str, value: &str) -> (r: Reply)
        ensures
            r@ == self@.with(name@, value@),
    {
        let mut headers = self.headers;
        headers.insert(name.to_string(), value.to_string());
        Reply { status: self.status, headers, body: self.body }
    }

    pub fn new(status: u16, ctype: &str, body: Vec<u8>) -> (r: Reply)
        ensures
            r@ == ReplyView::new(status, ctype@, body@),
    {
        let n: usize = body.len();
        Reply::bare(status, body).with("content-type", ctype).with("content-length", dec(n as u64).as_str()).with(
            "x-waf",
            "2t1",
        ).with("cache-control", "no-store, private")
    }
}

// ---------------------------------------------------------------------------
// Laws
// ---------------------------------------------------------------------------

/// Every answer of the proxy says what it holds and how long it is, and must not be stored; a
/// header that is set later is there beside these.
pub proof fn lemma_reply_headers(status: u16, ctype: Seq<char>, body: Seq<u8>)
    ensures
        ({
            let r = ReplyView::new(status, ctype, body);
            &&& r.status == status
            &&& r.body == body
            &&& request::lookup(r.headers, "content-type"@) == Some(ctype)
            &&& request::lookup(r.headers, "content-length"@) == Some(num::dec_text(body.len()))
            &&& request::lookup(r.headers, "x-waf"@) == Some("2t1"@)
            &&& request::lookup(r.headers, "cache-control"@) == Some("no-store, private"@)
            &&& forall|name: Seq<char>|
                name != "content-type"@ && name != "content-length"@ && name != "x-waf"@ && name != "cache-control"@
                    ==> #[trigger] request::lookup(r.headers, name) is None
        }),
{
    reveal_strlit("content-type");
    reveal_strlit("content-length");
    reveal_strlit("x-waf");
    reveal_strlit("cache-control");
    assert("content-type"@.len() == 12 && "content-length"@.len() == 14 && "x-waf"@.len() == 5);
    assert("cache-control"@.len() == 13);
    let a = ReplyView::bare(status, body);
    let b = a.with("content-type"@, ctype);
    let c = b.with("content-length"@, num::dec_text(body.len()));
    let d = c.with("x-waf"@, "2t1"@);
    request::lemma_put(a.headers, "content-type"@, ctype);
    request::lemma_put(b.headers, "content-length"@, num::dec_text(body.len()));
    request::lemma_put(c.headers, "x-waf"@, "2t1"@);
    request::lemma_put(d.headers, "cache-control"@, "no-store, private"@);
}

} // verus!
