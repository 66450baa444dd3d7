use crate::listing::{entry_leq, listing_html, views_of, Entry};
use crate::mime::spec_mime_type;
use crate::resp::{resp_headers, wf, Body, Response, Status};
use vstd::prelude::*;
use vstd::string::{StrSliceExecFns, StringExecFns};
use vstd::utf8::encode_utf8;

verus! {

/// An incoming request: the URL path, which the collaborator that parsed
/// the request off the connection guarantees to begin with `/`.
pub struct Request {
    pub path: String,
}

/// The canned page served when a request's target exists neither as a
/// directory nor as a regular file.
pub const NOT_FOUND_HTML: &'static str = "<html><head><title>404 Not Found</title></head><body><h1>404 Not Found</h1><p>The requested resource was not found on this server.</p></body></html>";

/// What the filesystem said about a request's joined target path. The
/// caller classifies the target — and, for a regular file, opens it and
/// reads its metadata size — before the handler builds the response.
pub enum PathKind {
    /// A directory, with its readable immediate children (unreadable
    /// entries already skipped).
    Directory(Vec<Entry>),
    /// A regular file, opened, with its metadata byte size.
    File { file: tokio::fs::File, len: u64 },
    /// Neither a directory nor a regular file.
    Missing,
}

/// Serves one filesystem subtree: every request path is resolved under
/// the fixed root directory chosen at construction.
#[derive(Debug, Clone)]
pub struct StaticFileHandler {
    root: String,
}

/// The request path mapped under the root, following the platform's
/// path-join semantics on the path with its leading `/` removed: an
/// absolute remainder replaces the root; an empty remainder leaves the
/// root with a trailing separator; otherwise a separator is inserted
/// unless the root already ends with one. (Nothing here rejects or
/// normalizes `..` segments; resolution is byte-for-byte.)
pub open spec fn joined_path(root: Seq<char>, req: Seq<char>) -> Seq<char>
    recommends
        req.len() > 0,
        req[0] == '/',
{
    let rest = req.drop_first();
    if rest.len() > 0 && rest[0] == '/' {
        rest
    } else if root.len() == 0 {
        rest
    } else if rest.len() == 0 {
        root + "/"@
    } else if root[root.len() - 1] == '/' {
        root + rest
    } else {
        root + "/"@ + rest
    }
}

impl StaticFileHandler {
    /// The root directory this handler serves.
    pub closed spec fn spec_root(&self) -> Seq<char> {
        self.root@
    }

    /// Makes a handler that serves the subtree rooted at `root`; the
    /// caller has validated that `root` exists as a directory.
    pub fn with_root(root: String) -> (h: StaticFileHandler)
        ensures
            h.spec_root() == root@,
    {
        StaticFileHandler { root }
    }

    /// Joins a request path onto the root, as `joined_path` describes.
    pub fn joined(&self, request_path: &str) -> (r: String)
        requires
            request_path@.len() > 0,
            request_path@[0] == '/',
        ensures
            r@ == joined_path(self.spec_root(), request_path@),
    {
        let n = request_path.unicode_len();
        let rest = request_path.substring_char(1, n);
        proof {
            assert(rest@ =~= request_path@.drop_first());
        }
        let rest_len = rest.unicode_len();
        if rest_len > 0 && rest.get_char(0) == '/' {
            rest.to_owned()
        } else {
            let root_len = self.root.as_str().unicode_len();
            if root_len == 0 {
                rest.to_owned()
            } else if rest_len == 0 {
                let mut s = self.root.clone();
                s.append("/");
                s
            } else if self.root.as_str().get_char(root_len - 1) == '/' {
                let mut s = self.root.clone();
                s.append(rest);
                s
            } else {
                let mut s = self.root.clone();
                s.append("/");
                s.append(rest);
                s
            }
        }
    }

    /// Resolves one request. The caller has classified the joined target
    /// path; the handler returns the response that classification calls
    /// for: the listing page of a directory, the opened file with its
    /// resolved content type, or the canned not-found page.
    pub fn handle(&self, request: &Request, target: PathKind) -> (r: Response)
        requires
            request.path@.len() > 0,
            request.path@[0] == '/',
        ensures
            (match target {
                PathKind::Missing => {
                    &&& r.status == Status::NotFound
                    &&& r.data matches Body::Bytes(b) && b@ == encode_utf8(NOT_FOUND_HTML@)
                    &&& resp_headers(r, "text/html"@, encode_utf8(NOT_FOUND_HTML@).len())
                },
                PathKind::Directory(entries) => {
                    &&& r.status == Status::Okay
                    &&& r.data matches Body::Bytes(b) && b@ == encode_utf8(
                        listing_html(request.path@, views_of(entries@).sort_by(entry_leq())),
                    )
                    &&& resp_headers(
                        r,
                        "text/html"@,
                        encode_utf8(
                            listing_html(request.path@, views_of(entries@).sort_by(entry_leq())),
                        ).len(),
                    )
                },
                PathKind::File { file, len } => {
                    &&& r.status == Status::Okay
                    &&& r.data matches Body::File { file: f, len: l } && f == file && l == len
                    &&& resp_headers(
                        r,
                        spec_mime_type(joined_path(self.spec_root(), request.path@)),
                        len as nat,
                    )
                },
            }),
            wf(r),
    {
        match target {
            PathKind::Directory(entries) => Response::from_index(
                Status::Okay,
                request.path.as_str(),
                entries,
            ),
            PathKind::File { file, len } => {
                let p = self.joined(request.path.as_str());
                Response::from_file(p.as_str(), file, len)
            },
            PathKind::Missing => Response::from_html(Status::NotFound, NOT_FOUND_HTML),
        }
    }
}

} // verus!
