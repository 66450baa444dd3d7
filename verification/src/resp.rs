use crate::decimal::{dec_str, u64_to_string};
use crate::listing::{entry_leq, listing_html, render_listing, views_of, Entry};
use crate::mime::{mime_type, spec_mime_type};
use vstd::prelude::*;
use vstd::string::{StrSliceExecFns, StringExecFns};
use vstd::utf8::encode_utf8;

verus! {

/// tokio's asynchronous file handle. The library only carries an already
/// opened handle inside a response body and hands it back untouched, so
/// the type is declared opaque; nothing about its behaviour is assumed.
#[verifier::external_type_specification]
#[verifier::external_body]
pub struct ExFile(tokio::fs::File);

/// The two response statuses the server emits.
#[derive(Debug, Copy, Clone, PartialEq, Eq, Hash, Structural)]
pub enum Status {
    NotFound,
    Okay,
}

/// The code-and-reason phrase of the status line.
pub open spec fn status_text(s: Status) -> Seq<char> {
    match s {
        Status::NotFound => "404 Not Found"@,
        Status::Okay => "200 OK"@,
    }
}

impl Status {
    /// The code-and-reason phrase this status puts on the status line.
    pub fn text(&self) -> (r: &'static str)
        ensures
            r@ == status_text(*self),
    {
        match self {
            Status::NotFound => "404 Not Found",
            Status::Okay => "200 OK",
        }
    }
}

/// A response payload: bytes buffered in memory, or an open file streamed
/// at write time, paired with its size as the caller read it from the
/// file's metadata.
pub enum Body {
    Bytes(Vec<u8>),
    File { file: tokio::fs::File, len: u64 },
}

/// The byte length a body declares: what `Content-Length` must carry.
pub open spec fn body_len(b: Body) -> nat {
    match b {
        Body::Bytes(v) => v@.len(),
        Body::File { file, len } => len as nat,
    }
}

/// The value stored under `name`, if any: headers are looked up by exact
/// (case-sensitive) name, first match first.
pub open spec fn header_value(hs: Seq<(String, String)>, name: Seq<char>) -> Option<Seq<char>>
    decreases hs.len(),
{
    if hs.len() == 0 {
        None
    } else if hs[0].0@ == name {
        Some(hs[0].1@)
    } else {
        header_value(hs.drop_first(), name)
    }
}

/// The exact header set every generated response carries: a content type
/// and a content length that renders the body's byte count.
pub open spec fn resp_headers(r: Response, ctype: Seq<char>, clen: nat) -> bool {
    &&& r.headers@.len() == 2
    &&& r.headers@[0].0@ == "Content-Type"@
    &&& r.headers@[0].1@ == ctype
    &&& r.headers@[1].0@ == "Content-Length"@
    &&& r.headers@[1].1@ == dec_str(clen)
}

/// What the fixed header set answers to a lookup: the content type under
/// `Content-Type`, the rendered length under `Content-Length`.
pub proof fn lemma_resp_headers_lookup(r: Response, ctype: Seq<char>, clen: nat)
    requires
        resp_headers(r, ctype, clen),
    ensures
        header_value(r.headers@, "Content-Type"@) == Some(ctype),
        header_value(r.headers@, "Content-Length"@) == Some(dec_str(clen)),
{
    reveal_strlit("Content-Type");
    reveal_strlit("Content-Length");
    let hs = r.headers@;
    assert("Content-Type"@.len() == 12);
    assert("Content-Length"@.len() == 14);
    assert(hs[0].0@ != "Content-Length"@);
    assert(hs.drop_first()[0] == hs[1]);
    assert(hs.drop_first().len() == 1);
    assert(header_value(hs.drop_first(), "Content-Length"@) == Some(dec_str(clen)));
    assert(header_value(hs, "Content-Length"@) == header_value(hs.drop_first(), "Content-Length"@));
}

/// The headers tell the truth about the body: a `Content-Length` entry,
/// when present, equals the exact byte length the body will yield — for a
/// buffered body its byte count, for a file body the measured size.
pub open spec fn wf(r: Response) -> bool {
    header_value(r.headers@, "Content-Length"@) matches Some(v) ==> v == dec_str(
        body_len(r.data),
    )
}

/// One serialized header line, without its terminator.
pub open spec fn header_line(h: (String, String)) -> Seq<char> {
    h.0@ + ": "@ + h.1@
}

/// The header lines joined by CRLF, without a trailing separator.
pub open spec fn headers_block(hs: Seq<(String, String)>) -> Seq<char>
    decreases hs.len(),
{
    if hs.len() == 0 {
        Seq::empty()
    } else if hs.len() == 1 {
        header_line(hs[0])
    } else {
        headers_block(hs.drop_last()) + "\r\n"@ + header_line(hs.last())
    }
}

/// Everything before the body on the wire: status line, header block, and
/// the blank line that closes the head.
pub open spec fn head_text(status: Status, hs: Seq<(String, String)>) -> Seq<char> {
    "HTTP/1.1 "@ + status_text(status) + "\r\n"@ + headers_block(hs) + "\r\n\r\n"@
}

/// An outgoing response: status, headers, and the body to be written
/// after them. It is built once per request and consumed by whoever
/// writes it to the connection.
pub struct Response {
    pub status: Status,
    pub headers: Vec<(String, String)>,
    pub data: Body,
}

impl Response {
    /// The status line and header block exactly as serialization emits
    /// them: `HTTP/1.1 {status}`, each header as `Name: Value`, all
    /// CRLF-separated, closed by a blank line.
    pub fn status_and_headers(&self) -> (r: String)
        ensures
            r@ == head_text(self.status, self.headers@),
    {
        let mut s = String::new();
        s.append("HTTP/1.1 ");
        s.append(self.status.text());
        s.append("\r\n");
        let mut i: usize = 0;
        while i < self.headers.len()
            invariant
                i <= self.headers@.len(),
                s@ =~= "HTTP/1.1 "@ + status_text(self.status) + "\r\n"@ + headers_block(
                    self.headers@.take(i as int),
                ),
            decreases self.headers@.len() - i,
        {
            let ghost s_pre = s@;
            if i > 0 {
                s.append("\r\n");
            }
            s.append(self.headers[i].0.as_str());
            s.append(": ");
            s.append(self.headers[i].1.as_str());
            proof {
                let hs = self.headers@;
                assert(hs.take(i + 1).drop_last() =~= hs.take(i as int));
                assert(hs.take(i + 1).last() == hs[i as int]);
                if i == 0 {
                    assert(s@ =~= s_pre + header_line(hs[0]));
                    assert(headers_block(hs.take(1)) == header_line(hs.take(1)[0]));
                } else {
                    assert(s@ =~= s_pre + "\r\n"@ + header_line(hs[i as int]));
                }
                assert(s@ =~= "HTTP/1.1 "@ + status_text(self.status) + "\r\n"@ + headers_block(
                    hs.take(i + 1),
                ));
            }
            i = i + 1;
        }
        proof {
            assert(self.headers@.take(self.headers@.len() as int) =~= self.headers@);
        }
        s.append("\r\n\r\n");
        s
    }

    /// The serialized head as bytes: what a write puts on the wire before
    /// the body.
    pub fn head_bytes(&self) -> (r: Vec<u8>)
        ensures
            r@ == encode_utf8(head_text(self.status, self.headers@)),
    {
        let s = self.status_and_headers();
        s.as_str().as_bytes_vec()
    }

    /// The full wire image of a buffered response: exactly the serialized
    /// head followed, byte for byte, by the whole body. This consumes the
    /// response, as writing it out does.
    pub fn into_bytes(self) -> (r: Vec<u8>)
        requires
            self.data is Bytes,
        ensures
            self.data matches Body::Bytes(b) ==> r@ == encode_utf8(
                head_text(self.status, self.headers@),
            ) + b@,
    {
        let mut out = self.head_bytes();
        match self.data {
            Body::Bytes(b) => {
                let mut tail = b;
                out.append(&mut tail);
            },
            Body::File { file, len } => {
                proof {
                    assert(false);
                }
            },
        }
        out
    }

    /// Builds a buffered response carrying `data` as an HTML page, with
    /// the content type and exact byte length in the headers.
    pub fn from_html(status: Status, data: &str) -> (r: Response)
        ensures
            r.status == status,
            r.data matches Body::Bytes(b) && b@ == encode_utf8(data@),
            resp_headers(r, "text/html"@, encode_utf8(data@).len()),
            wf(r),
    {
        let bytes = data.as_bytes_vec();
        let clen = u64_to_string(bytes.len() as u64);
        let mut headers: Vec<(String, String)> = Vec::new();
        headers.push(("Content-Type".to_owned(), "text/html".to_owned()));
        headers.push(("Content-Length".to_owned(), clen));
        let r = Response { status, headers, data: Body::Bytes(bytes) };
        proof {
            lemma_resp_headers_lookup(r, "text/html"@, encode_utf8(data@).len());
        }
        r
    }

    /// Builds the listing page response for a directory: the rendered
    /// page for the children, buffered, with its exact byte length.
    pub fn from_index(status: Status, dir_path: &str, entries: Vec<Entry>) -> (r: Response)
        ensures
            r.status == status,
            r.data matches Body::Bytes(b) && b@ == encode_utf8(
                listing_html(dir_path@, views_of(entries@).sort_by(entry_leq())),
            ),
            resp_headers(
                r,
                "text/html"@,
                encode_utf8(listing_html(dir_path@, views_of(entries@).sort_by(entry_leq()))).len(),
            ),
            wf(r),
    {
        let page = render_listing(dir_path, entries);
        Response::from_html(status, page.as_str())
    }

    /// Builds the response for the regular file at `path`, already opened
    /// by the caller: the handle becomes the streamed body, and the
    /// headers carry the metadata size and the resolved content type.
    pub fn from_file(path: &str, file: tokio::fs::File, len: u64) -> (r: Response)
        ensures
            r.status == Status::Okay,
            r.data matches Body::File { file: f, len: l } && f == file && l == len,
            resp_headers(r, spec_mime_type(path@), len as nat),
            wf(r),
    {
        let ctype = mime_type(path);
        let clen = u64_to_string(len);
        let mut headers: Vec<(String, String)> = Vec::new();
        headers.push(("Content-Type".to_owned(), ctype.to_owned()));
        headers.push(("Content-Length".to_owned(), clen));
        let r = Response { status: Status::Okay, headers, data: Body::File { file, len } };
        proof {
            lemma_resp_headers_lookup(r, spec_mime_type(path@), len as nat);
        }
        r
    }
}

} // verus!
