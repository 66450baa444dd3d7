use fileserve::decimal::u64_to_string;
use fileserve::handler::{PathKind, Request, StaticFileHandler, NOT_FOUND_HTML};
use fileserve::listing::{render_listing, sort_entries, Entry, LISTING_HEAD, LISTING_TAIL};
use fileserve::mime::mime_type;
use fileserve::resp::{Body, Response, Status};

fn header<'a>(r: &'a Response, name: &str) -> &'a str {
    for (k, v) in r.headers.iter() {
        if k == name {
            return v;
        }
    }
    panic!("header {} missing", name);
}

#[test]
fn mime_table() {
    assert_eq!(mime_type("/srv/a.html"), "text/html");
    assert_eq!(mime_type("style.css"), "text/css");
    assert_eq!(mime_type("app.js"), "text/javascript");
    assert_eq!(mime_type("img.png"), "image/png");
    assert_eq!(mime_type("photo.jpg"), "image/jpeg");
    assert_eq!(mime_type("anim.gif"), "image/gif");
    assert_eq!(mime_type("archive.tar"), "application/octet-stream");
}

#[test]
fn mime_lowercases_extension() {
    assert_eq!(mime_type("INDEX.HTML"), "text/html");
    assert_eq!(mime_type("a.PnG"), "image/png");
}

#[test]
fn mime_without_extension_defaults() {
    assert_eq!(mime_type("README"), "application/octet-stream");
    assert_eq!(mime_type("/srv/.gitignore"), "application/octet-stream");
    assert_eq!(mime_type(""), "application/octet-stream");
    assert_eq!(mime_type("dir.d/file"), "application/octet-stream");
    assert_eq!(mime_type("trailing."), "application/octet-stream");
}

#[test]
fn decimal_rendering() {
    assert_eq!(u64_to_string(0), "0");
    assert_eq!(u64_to_string(7), "7");
    assert_eq!(u64_to_string(10), "10");
    assert_eq!(u64_to_string(12345), "12345");
    assert_eq!(u64_to_string(u64::MAX), "18446744073709551615");
}

#[test]
fn sort_puts_directories_first_then_names() {
    let entries = vec![
        Entry { name: "zeta.txt".to_string(), is_dir: false },
        Entry { name: "alpha".to_string(), is_dir: true },
        Entry { name: "beta.txt".to_string(), is_dir: false },
        Entry { name: "mu".to_string(), is_dir: true },
    ];
    let sorted = sort_entries(entries);
    let names: Vec<&str> = sorted.iter().map(|e| e.name.as_str()).collect();
    assert_eq!(names, vec!["alpha", "mu", "beta.txt", "zeta.txt"]);
    assert!(sorted[0].is_dir && sorted[1].is_dir);
    assert!(!sorted[2].is_dir && !sorted[3].is_dir);
}

#[test]
fn listing_links_use_base_without_trailing_slash() {
    let entries = vec![
        Entry { name: "zeta.txt".to_string(), is_dir: false },
        Entry { name: "alpha".to_string(), is_dir: true },
    ];
    let html = render_listing("/stuff/", entries);
    let rows = "<li><a href=\"/stuff/alpha\">alpha</a></li><li><a href=\"/stuff/zeta.txt\">zeta.txt</a></li>";
    assert_eq!(html, format!("{}{}{}", LISTING_HEAD, rows, LISTING_TAIL));
}

#[test]
fn listing_of_empty_directory_is_bare_template() {
    let html = render_listing("/d", vec![]);
    assert_eq!(html, format!("{}{}", LISTING_HEAD, LISTING_TAIL));
}

#[test]
fn status_and_headers_exact() {
    let r = Response::from_html(Status::Okay, "<p>hi</p>");
    assert_eq!(
        r.status_and_headers(),
        "HTTP/1.1 200 OK\r\nContent-Type: text/html\r\nContent-Length: 9\r\n\r\n"
    );
}

#[test]
fn not_found_status_line_exact() {
    let r = Response::from_html(Status::NotFound, "x");
    assert_eq!(
        r.status_and_headers(),
        "HTTP/1.1 404 Not Found\r\nContent-Type: text/html\r\nContent-Length: 1\r\n\r\n"
    );
}

#[test]
fn serialized_bytes_are_head_then_body() {
    let r = Response::from_html(Status::NotFound, "gone");
    let head = r.status_and_headers();
    let bytes = r.into_bytes();
    let expected = format!("{}{}", head, "gone");
    assert_eq!(bytes, expected.as_bytes());
}

#[test]
fn from_html_measures_body_in_bytes() {
    let r = Response::from_html(Status::Okay, "caf\u{e9}");
    assert_eq!(header(&r, "Content-Length"), "5");
    assert_eq!(header(&r, "Content-Type"), "text/html");
    match r.data {
        Body::Bytes(b) => assert_eq!(b, "caf\u{e9}".as_bytes()),
        _ => panic!("expected buffered body"),
    }
}

#[test]
fn missing_target_yields_not_found_page() {
    let h = StaticFileHandler::with_root("/srv".to_string());
    let req = Request { path: "/missing.txt".to_string() };
    let r = h.handle(&req, PathKind::Missing);
    assert_eq!(r.status, Status::NotFound);
    assert_eq!(header(&r, "Content-Type"), "text/html");
    assert_eq!(header(&r, "Content-Length"), NOT_FOUND_HTML.len().to_string());
    match r.data {
        Body::Bytes(b) => assert_eq!(b, NOT_FOUND_HTML.as_bytes()),
        _ => panic!("expected buffered body"),
    }
}

#[test]
fn directory_target_yields_listing_page() {
    let h = StaticFileHandler::with_root("/srv".to_string());
    let req = Request { path: "/docs/".to_string() };
    let entries = vec![
        Entry { name: "b.txt".to_string(), is_dir: false },
        Entry { name: "a".to_string(), is_dir: true },
    ];
    let r = h.handle(&req, PathKind::Directory(entries));
    assert_eq!(r.status, Status::Okay);
    assert_eq!(header(&r, "Content-Type"), "text/html");
    let rows = "<li><a href=\"/docs/a\">a</a></li><li><a href=\"/docs/b.txt\">b.txt</a></li>";
    let expected = format!("{}{}{}", LISTING_HEAD, rows, LISTING_TAIL);
    assert_eq!(header(&r, "Content-Length"), expected.len().to_string());
    match r.data {
        Body::Bytes(b) => assert_eq!(b, expected.as_bytes()),
        _ => panic!("expected buffered body"),
    }
}

#[test]
fn joined_follows_platform_join() {
    let h = StaticFileHandler::with_root("/srv".to_string());
    assert_eq!(h.joined("/a/b.txt"), "/srv/a/b.txt");
    assert_eq!(h.joined("/"), "/srv/");
    let slashed = StaticFileHandler::with_root("/srv/".to_string());
    assert_eq!(slashed.joined("/a"), "/srv/a");
    // an absolute remainder replaces the root, as the platform join does
    assert_eq!(h.joined("//etc/x"), "/etc/x");
}
