use cgi_server::mime::{content_type_for_path, ContentType};
use cgi_server::path::{path_segments, resolve_path};
use cgi_server::response::{create_error_response, status_text};
use cgi_server::static_files::serve_file;

#[test]
fn content_types_follow_the_extension() {
    let cases: [(&str, &str); 12] = [
        ("/r/a.html", "text/html; charset=utf-8"),
        ("/r/a.css", "text/css; charset=utf-8"),
        ("/r/app.js", "text/javascript; charset=utf-8"),
        ("/r/i.png", "image/png"),
        ("/r/i.jpg", "image/jpeg"),
        ("/r/i.jpeg", "image/jpeg"),
        ("/r/notes.txt", "text/plain; charset=utf-8"),
        ("/r/a.zip", "application/zip"),
        ("/r/a.HTML", "application/octet-stream"),
        ("/r/README", "application/octet-stream"),
        ("/r/.html", "application/octet-stream"),
        ("/r/x.tar.gz", "application/octet-stream"),
    ];
    for (p, want) in cases {
        assert_eq!(content_type_for_path(p.as_bytes()).mime_type(), want, "path {}", p);
    }
}

#[test]
fn extension_is_taken_from_the_file_name_only() {
    assert_eq!(content_type_for_path(b"/r/site.html/data"), ContentType::OctetStream);
    assert_eq!(content_type_for_path(b"/r/v1.2/page.css"), ContentType::Css);
    assert_eq!(content_type_for_path(b"page.html"), ContentType::Html);
    assert_eq!(content_type_for_path(b""), ContentType::OctetStream);
}

#[test]
fn served_file_keeps_its_bytes() {
    let bytes = vec![0u8, 255, 10, 13, 0];
    let r = serve_file(b"/r/blob.png", bytes.clone());
    assert_eq!(r.status, 200);
    assert_eq!(r.content_type, Some(ContentType::Png));
    assert_eq!(r.body.into_bytes(), bytes);
}

#[test]
fn segments_apply_dots() {
    assert_eq!(path_segments(b"/a//b/./c/../d"), Some(vec![b"a".to_vec(), b"b".to_vec(), b"d".to_vec()]));
    assert_eq!(path_segments(b""), Some(vec![]));
    assert_eq!(path_segments(b"/a/../.."), None);
    assert_eq!(path_segments(b"/.../x"), Some(vec![b"...".to_vec(), b"x".to_vec()]));
}

#[test]
fn resolve_joins_under_root() {
    assert_eq!(resolve_path(b"/srv", b"/x/y.html"), Some(b"/srv/x/y.html".to_vec()));
    assert_eq!(resolve_path(b"/srv", b"/x/../../y"), None);
    assert_eq!(resolve_path(b"/srv", b"/scripts/../scripts/run"), Some(b"/srv/scripts/run".to_vec()));
}

#[test]
fn status_texts() {
    assert_eq!(status_text(200), "200 OK");
    assert_eq!(status_text(403), "403 Forbidden");
    assert_eq!(status_text(404), "404 Not Found");
    assert_eq!(status_text(405), "405 Method Not Allowed");
    assert_eq!(status_text(500), "500 Internal Server Error");
    assert_eq!(status_text(400), "400 Bad Request");
    assert_eq!(status_text(418), "400 Bad Request");
}

#[test]
fn bad_request_response() {
    let r = create_error_response(400);
    assert_eq!(r.status, 400);
    assert_eq!(r.content_type, Some(ContentType::PlainText));
    assert_eq!(r.body.into_bytes(), b"400 Bad Request".to_vec());
}
