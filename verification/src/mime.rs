use vstd::prelude::*;
use vstd::string::StrSliceExecFns;

verus! {

/// ASCII lowercasing of a single character; anything but `A`..`Z` is kept.
pub open spec fn lower_char(c: char) -> char {
    let u = c as u32;
    if 65 <= u && u < 91 {
        ((u + 32) as u32) as char
    } else {
        c
    }
}

/// ASCII lowercasing of a character sequence.
pub open spec fn lower(s: Seq<char>) -> Seq<char> {
    s.map_values(|c: char| lower_char(c))
}

/// `i` marks the dot that starts `p`'s extension: it is the last `.` or `/`
/// of `p`, and the character before it exists and is not a `/` (so a name
/// that is nothing but its leading dot has no extension).
pub open spec fn ext_dot_at(p: Seq<char>, i: int) -> bool {
    &&& 0 < i < p.len()
    &&& p[i] == '.'
    &&& p[i - 1] != '/'
    &&& forall|j: int| i < j < p.len() ==> (p[j] != '.' && p[j] != '/')
}

/// Whether the file name at the end of `p` carries an extension.
pub open spec fn has_extension(p: Seq<char>) -> bool {
    exists|i: int| ext_dot_at(p, i)
}

/// The extension of `p`: what follows the last `.` of its file name.
pub open spec fn extension(p: Seq<char>) -> Seq<char>
    recommends
        has_extension(p),
{
    p.skip((choose|i: int| ext_dot_at(p, i)) + 1)
}

/// At most one position can mark the extension dot.
pub proof fn lemma_ext_dot_unique(p: Seq<char>, i1: int, i2: int)
    requires
        ext_dot_at(p, i1),
        ext_dot_at(p, i2),
    ensures
        i1 == i2,
{
    if i1 < i2 {
        assert(p[i2] != '.');
    } else if i2 < i1 {
        assert(p[i1] != '.');
    }
}

/// The MIME type table, applied to an already-extracted extension.
pub open spec fn mime_for_ext(e: Seq<char>) -> Seq<char> {
    let l = lower(e);
    if l == "html"@ {
        "text/html"@
    } else if l == "css"@ {
        "text/css"@
    } else if l == "js"@ {
        "text/javascript"@
    } else if l == "png"@ {
        "image/png"@
    } else if l == "jpg"@ {
        "image/jpeg"@
    } else if l == "gif"@ {
        "image/gif"@
    } else {
        "application/octet-stream"@
    }
}

/// The MIME type served for a path: the table applied to the path's
/// extension, or the generic binary type when there is none.
pub open spec fn spec_mime_type(p: Seq<char>) -> Seq<char> {
    if has_extension(p) {
        mime_for_ext(extension(p))
    } else {
        "application/octet-stream"@
    }
}

/// Whether the suffix of `path` from `start` on, ASCII-lowercased, equals
/// `pat` (which callers pass already lowercased).
fn suffix_matches_lower(path: &str, start: usize, pat: &str) -> (r: bool)
    requires
        start <= path@.len(),
    ensures
        r == (lower(path@.skip(start as int)) == pat@),
{
    let n = path.unicode_len();
    let m = pat.unicode_len();
    if n - start != m {
        proof {
            assert(lower(path@.skip(start as int)).len() == n - start);
        }
        return false;
    }
    let mut i: usize = 0;
    loop
        invariant
            i <= m,
            start + m == n,
            n == path@.len(),
            m == pat@.len(),
            start <= n,
            forall|j: int|
                0 <= j < i ==> lower_char(path@.skip(start as int)[j]) == pat@[j],
        decreases m - i,
    {
        if i == m {
            proof {
                assert(lower(path@.skip(start as int)) =~= pat@);
            }
            return true;
        }
        let pc = path.get_char(start + i);
        let ec = pat.get_char(i);
        let pu = pc as u32;
        let eu = ec as u32;
        let lowered: u32 = if 65 <= pu && pu < 91 {
            pu + 32
        } else {
            pu
        };
        proof {
            vstd::utf8::char_u32_cast(pc, pu);
            vstd::utf8::char_u32_cast(ec, eu);
            if 65 <= pu < 91 {
                vstd::utf8::char_is_scalar(pc);
                assert(((pu + 32) as u32) as char as u32 == (pu + 32) as u32);
                assert(lower_char(pc) as u32 == pu + 32);
            }
        }
        if lowered != eu {
            proof {
                assert(lower_char(path@.skip(start as int)[i as int]) != pat@[i as int]);
                assert(lower(path@.skip(start as int))[i as int] != pat@[i as int]);
            }
            return false;
        }
        i = i + 1;
    }
}

/// Scans `path` from its end for the dot that starts its extension.
fn scan_ext_dot(path: &str) -> (r: Option<usize>)
    ensures
        match r {
            Some(d) => ext_dot_at(path@, d as int) && d < path@.len(),
            None => !has_extension(path@),
        },
{
    let n = path.unicode_len();
    let mut j = n;
    loop
        invariant
            j <= n,
            n == path@.len(),
            forall|k: int| j <= k < n ==> (path@[k] != '.' && path@[k] != '/'),
        decreases j,
    {
        if j == 0 {
            proof {
                assert forall|i: int| !ext_dot_at(path@, i) by {
                    if 0 < i < path@.len() {
                        assert(path@[i] != '.');
                    }
                }
            }
            return None;
        }
        let c = path.get_char(j - 1);
        if c == '/' {
            proof {
                assert forall|i: int| !ext_dot_at(path@, i) by {
                    if j <= i < path@.len() {
                        assert(path@[i] != '.');
                    } else if 0 < i < j - 1 && ext_dot_at(path@, i) {
                        assert(path@[j - 1] != '/');
                    }
                }
            }
            return None;
        }
        if c == '.' {
            if j >= 2 && path.get_char(j - 2) != '/' {
                return Some(j - 1);
            }
            proof {
                assert forall|i: int| !ext_dot_at(path@, i) by {
                    if j <= i < path@.len() {
                        assert(path@[i] != '.');
                    } else if 0 < i < j - 1 && ext_dot_at(path@, i) {
                        assert(path@[j - 1] != '.');
                    }
                }
            }
            return None;
        }
        j = j - 1;
    }
}

/// The lowercase MIME type for the extension of `path`, falling back to
/// `application/octet-stream` where the extension is absent or unknown.
pub fn mime_type(path: &str) -> (r: &'static str)
    ensures
        r@ == spec_mime_type(path@),
{
    let n = path.unicode_len();
    let scan = scan_ext_dot(path);
    proof {
        if scan is Some {
            let d = scan->0;
            let w = choose|i: int| ext_dot_at(path@, i);
            lemma_ext_dot_unique(path@, d as int, w);
            assert(extension(path@) == path@.skip(d + 1));
        }
    }
    if let Some(dot) = scan {
        if suffix_matches_lower(path, dot + 1, "html") {
            "text/html"
        } else if suffix_matches_lower(path, dot + 1, "css") {
            "text/css"
        } else if suffix_matches_lower(path, dot + 1, "js") {
            "text/javascript"
        } else if suffix_matches_lower(path, dot + 1, "png") {
            "image/png"
        } else if suffix_matches_lower(path, dot + 1, "jpg") {
            "image/jpeg"
        } else if suffix_matches_lower(path, dot + 1, "gif") {
            "image/gif"
        } else {
            "application/octet-stream"
        }
    } else {
        "application/octet-stream"
    }
}

/// The resolver is total: every path, with or without an extension, is
/// mapped to one of the seven table entries — never to an empty type.
pub proof fn lemma_mime_type_total(p: Seq<char>)
    ensures
        spec_mime_type(p).len() > 0,
        spec_mime_type(p) == "text/html"@ || spec_mime_type(p) == "text/css"@
            || spec_mime_type(p) == "text/javascript"@ || spec_mime_type(p) == "image/png"@
            || spec_mime_type(p) == "image/jpeg"@ || spec_mime_type(p) == "image/gif"@
            || spec_mime_type(p) == "application/octet-stream"@,
        !has_extension(p) ==> spec_mime_type(p) == "application/octet-stream"@,
{
    reveal_strlit("text/html");
    reveal_strlit("text/css");
    reveal_strlit("text/javascript");
    reveal_strlit("image/png");
    reveal_strlit("image/jpeg");
    reveal_strlit("image/gif");
    reveal_strlit("application/octet-stream");
}

} // verus!
