use fileserve::handler::{PathKind, Request, StaticFileHandler, NOT_FOUND_HTML};
use fileserve::listing::{Entry, LISTING_HEAD, LISTING_TAIL};
use fileserve::resp::{Body, Response, Status};
use tokio::runtime::Builder;

fn runtime() -> tokio::runtime::Runtime {
    Builder::new_current_thread().enable_all().build().unwrap()
}

fn header<'a>(r: &'a Response, name: &str) -> &'a str {
    for (k, v) in r.headers.iter() {
        if k == name {
            return v;
        }
    }
    panic!("header {} missing", name);
}

/// Classifies a request's target the way the server's I/O shell does:
/// stat the joined path, list a directory (skipping unreadable entries),
/// or open a regular file and read its size.
async fn classify(handler: &StaticFileHandler, req: &Request) -> PathKind {
    let joined = handler.joined(&req.path);
    let meta = match tokio::fs::metadata(&joined).await {
        Ok(m) => m,
        Err(_) => return PathKind::Missing,
    };
    if meta.is_dir() {
        let mut entries = Vec::new();
        if let Ok(mut rd) = tokio::fs::read_dir(&joined).await {
            while let Ok(Some(de)) = rd.next_entry().await {
                let name = match de.file_name().into_string() {
                    Ok(n) => n,
                    Err(_) => continue,
                };
                let is_dir = match de.file_type().await {
                    Ok(t) => t.is_dir(),
                    Err(_) => continue,
                };
                entries.push(Entry { name, is_dir });
            }
        }
        PathKind::Directory(entries)
    } else if meta.is_file() {
        match tokio::fs::File::open(&joined).await {
            Ok(file) => PathKind::File { file, len: meta.len() },
            Err(_) => PathKind::Missing,
        }
    } else {
        PathKind::Missing
    }
}

fn body_bytes(r: Response) -> Vec<u8> {
    match r.data {
        Body::Bytes(b) => b,
        Body::File { .. } => panic!("expected buffered body"),
    }
}

#[test]
fn scenario_root_index_and_image_subdirectory() {
    let rt = runtime();
    rt.block_on(async {
        let root = "/tmp/fileserve_scenario_tree";
        let _ = tokio::fs::remove_dir_all(root).await;
        tokio::fs::create_dir_all(format!("{}/img", root)).await.unwrap();
        tokio::fs::write(format!("{}/index.html", root), b"<p>hello</p>").await.unwrap();
        tokio::fs::write(format!("{}/img/a.png", root), b"not-a-real-png").await.unwrap();

        let handler = StaticFileHandler::with_root(root.to_string());

        // request `/`: a listing with `img` before `index.html`
        let req = Request { path: "/".to_string() };
        let target = classify(&handler, &req).await;
        let resp = handler.handle(&req, target);
        assert_eq!(resp.status, Status::Okay);
        assert_eq!(header(&resp, "Content-Type"), "text/html");
        let rows = "<li><a href=\"/img\">img</a></li><li><a href=\"/index.html\">index.html</a></li>";
        let expected = format!("{}{}{}", LISTING_HEAD, rows, LISTING_TAIL);
        assert_eq!(header(&resp, "Content-Length"), expected.len().to_string());
        assert_eq!(body_bytes(resp), expected.as_bytes());

        // request `/index.html`: the file itself, 12 bytes of HTML
        let req = Request { path: "/index.html".to_string() };
        let target = classify(&handler, &req).await;
        let resp = handler.handle(&req, target);
        assert_eq!(resp.status, Status::Okay);
        assert_eq!(header(&resp, "Content-Type"), "text/html");
        assert_eq!(header(&resp, "Content-Length"), "12");
        match resp.data {
            Body::File { file: _, len } => assert_eq!(len, 12),
            _ => panic!("expected streamed file body"),
        }

        // request `/missing.txt`: the canned not-found page
        let req = Request { path: "/missing.txt".to_string() };
        let target = classify(&handler, &req).await;
        let resp = handler.handle(&req, target);
        assert_eq!(resp.status, Status::NotFound);
        assert_eq!(body_bytes(resp), NOT_FOUND_HTML.as_bytes());

        // request `/img/`: a listing whose link target is `/img/a.png`
        let req = Request { path: "/img/".to_string() };
        let target = classify(&handler, &req).await;
        let resp = handler.handle(&req, target);
        assert_eq!(resp.status, Status::Okay);
        let rows = "<li><a href=\"/img/a.png\">a.png</a></li>";
        let expected = format!("{}{}{}", LISTING_HEAD, rows, LISTING_TAIL);
        assert_eq!(body_bytes(resp), expected.as_bytes());

        let _ = tokio::fs::remove_dir_all(root).await;
    });
}

#[test]
fn file_response_resolves_content_type_from_extension() {
    let rt = runtime();
    rt.block_on(async {
        let root = "/tmp/fileserve_scenario_png";
        let _ = tokio::fs::remove_dir_all(root).await;
        tokio::fs::create_dir_all(root).await.unwrap();
        tokio::fs::write(format!("{}/pic.png", root), b"xyz").await.unwrap();

        let handler = StaticFileHandler::with_root(root.to_string());
        let req = Request { path: "/pic.png".to_string() };
        let target = classify(&handler, &req).await;
        let resp = handler.handle(&req, target);
        assert_eq!(resp.status, Status::Okay);
        assert_eq!(header(&resp, "Content-Type"), "image/png");
        assert_eq!(header(&resp, "Content-Length"), "3");

        let _ = tokio::fs::remove_dir_all(root).await;
    });
}
