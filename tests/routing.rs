use cgi_server::response::{Body, Response};
use cgi_server::router::{handle_request, parse_method, parse_request_line, Action, Method, Request, ServerConfig};
use cgi_server::script::{script_environment, script_response, trim_blanks, ScriptOutcome};
use cgi_server::static_files::{static_response, StaticOutcome};
use cgi_server::mime::ContentType;

fn config() -> ServerConfig {
    ServerConfig { port: 8080, root: b"/srv/www".to_vec() }
}

fn request(method: &str, path: &str, headers: &[(&str, &str)]) -> Request {
    Request {
        method: method.as_bytes().to_vec(),
        path: path.as_bytes().to_vec(),
        headers: headers
            .iter()
            .map(|(k, v)| (k.as_bytes().to_vec(), v.as_bytes().to_vec()))
            .collect(),
    }
}

fn body_bytes(r: Response) -> Vec<u8> {
    r.body.into_bytes()
}

fn respond_status(a: &Action) -> Option<u16> {
    match a {
        Action::Respond(r) => Some(r.status),
        _ => None,
    }
}

fn env_lookup(env: &[(Vec<u8>, Vec<u8>)], key: &str) -> Option<Vec<u8>> {
    env.iter().rev().find(|(k, _)| k == key.as_bytes()).map(|(_, v)| v.clone())
}

#[test]
fn get_html_file_is_served_with_its_bytes() {
    let a = handle_request(&config(), &request("GET", "/index.html", &[]));
    let path = match a {
        Action::ServeStatic { path } => path,
        other => panic!("unexpected {:?}", other),
    };
    assert_eq!(path, b"/srv/www/index.html".to_vec());
    let contents = b"<h1>hi</h1>\n".to_vec();
    let r = static_response(&path, StaticOutcome::File(contents.clone()));
    assert_eq!(r.status, 200);
    assert_eq!(r.content_type, Some(ContentType::Html));
    assert_eq!(r.content_type.unwrap().mime_type(), "text/html; charset=utf-8");
    assert_eq!(body_bytes(r), contents);
}

#[test]
fn get_missing_path_is_not_found() {
    let a = handle_request(&config(), &request("GET", "/nope.txt", &[]));
    let path = match a {
        Action::ServeStatic { path } => path,
        other => panic!("unexpected {:?}", other),
    };
    let r = static_response(&path, StaticOutcome::Missing);
    assert_eq!(r.status, 404);
    assert_eq!(body_bytes(r), b"404 Not Found".to_vec());
}

#[test]
fn unreadable_file_is_forbidden() {
    let r = static_response(b"/srv/www/secret.txt", StaticOutcome::Unreadable);
    assert_eq!(r.status, 403);
    assert_eq!(r.content_type, Some(ContentType::PlainText));
    assert_eq!(body_bytes(r), b"403 Forbidden".to_vec());
}

#[test]
fn directory_is_listed() {
    let names = vec!["a.txt".to_string(), "sub".to_string()];
    let r = static_response(b"/srv/www/docs", StaticOutcome::Directory(names));
    assert_eq!(r.status, 200);
    assert_eq!(r.content_type, Some(ContentType::Html));
    let expected = "<html><h1>Directory listing</h1><ul><li><a href=\"../\">..</a></li>\
<li><a href=\"a.txt\">a.txt</a></li><li><a href=\"sub\">sub</a></li></ul></html>";
    assert_eq!(body_bytes(r), expected.as_bytes().to_vec());
}

#[test]
fn empty_directory_lists_only_parent() {
    let r = static_response(b"/srv/www/empty", StaticOutcome::Directory(vec![]));
    let expected =
        "<html><h1>Directory listing</h1><ul><li><a href=\"../\">..</a></li></ul></html>";
    assert_eq!(body_bytes(r), expected.as_bytes().to_vec());
}

#[test]
fn post_echo_script_returns_stdout() {
    let a = handle_request(&config(), &request("POST", "/scripts/echo", &[]));
    let path = match a {
        Action::RunScript { path, .. } => path,
        other => panic!("unexpected {:?}", other),
    };
    assert_eq!(path, b"/srv/www/scripts/echo".to_vec());
    let r = script_response(ScriptOutcome::Exited {
        success: true,
        stdout: b"hello".to_vec(),
        stderr: vec![],
    });
    assert_eq!(r.status, 200);
    assert_eq!(body_bytes(r), b"hello".to_vec());
}

#[test]
fn post_failing_script_returns_stderr() {
    let a = handle_request(&config(), &request("POST", "/scripts/fail", &[]));
    assert!(matches!(a, Action::RunScript { .. }));
    let r = script_response(ScriptOutcome::Exited {
        success: false,
        stdout: b"ignored".to_vec(),
        stderr: b"boom".to_vec(),
    });
    assert_eq!(r.status, 500);
    assert_eq!(body_bytes(r), b"boom".to_vec());
}

#[test]
fn missing_script_is_not_found() {
    let r = script_response(ScriptOutcome::NotFound);
    assert_eq!(r.status, 404);
    assert_eq!(body_bytes(r), b"404 Not Found".to_vec());
}

#[test]
fn script_that_cannot_start_is_server_error() {
    let r = script_response(ScriptOutcome::LaunchFailed);
    assert_eq!(r.status, 500);
    assert_eq!(body_bytes(r), b"500 Internal Server Error".to_vec());
}

#[test]
fn post_outside_scripts_is_not_found() {
    for p in ["/index.html", "/scripts", "/scripts/", "/other/scripts/x", "/scripts/../index.html"] {
        let a = handle_request(&config(), &request("POST", p, &[]));
        assert_eq!(respond_status(&a), Some(404), "path {}", p);
    }
}

#[test]
fn other_methods_are_not_allowed() {
    for m in ["PUT", "DELETE", "HEAD", "get", "OPTIONS", ""] {
        for p in ["/index.html", "/scripts/echo", "/../x"] {
            let a = handle_request(&config(), &request(m, p, &[]));
            assert_eq!(respond_status(&a), Some(405), "method {} path {}", m, p);
            if let Action::Respond(r) = a {
                assert_eq!(body_bytes(r), b"405 Method Not Allowed".to_vec());
            }
        }
    }
}

#[test]
fn parent_segments_never_leave_root() {
    for p in ["/../etc/passwd", "/a/../../etc/passwd", "/..", "/scripts/../../x"] {
        let a = handle_request(&config(), &request("GET", p, &[]));
        assert_eq!(respond_status(&a), Some(404), "path {}", p);
    }
    let cases = [
        ("/a/../b", "/srv/www/b"),
        ("//etc/passwd", "/srv/www/etc/passwd"),
        ("/./a/./b/", "/srv/www/a/b"),
        ("/a/b/..", "/srv/www/a"),
        ("/", "/srv/www"),
        ("/%2e%2e/x", "/srv/www/%2e%2e/x"),
    ];
    for (p, want) in cases {
        match handle_request(&config(), &request("GET", p, &[])) {
            Action::ServeStatic { path } => assert_eq!(path, want.as_bytes().to_vec(), "path {}", p),
            other => panic!("unexpected {:?} for {}", other, p),
        }
    }
}

#[test]
fn script_environment_holds_method_path_and_headers() {
    let a = handle_request(
        &config(),
        &request("POST", "/scripts/echo", &[("host", "example.org"), ("x-token", "  abc \t")]),
    );
    let env = match a {
        Action::RunScript { env, .. } => env,
        other => panic!("unexpected {:?}", other),
    };
    assert_eq!(env.len(), 4);
    assert_eq!(env_lookup(&env, "Method"), Some(b"POST".to_vec()));
    assert_eq!(env_lookup(&env, "Path"), Some(b"/scripts/echo".to_vec()));
    assert_eq!(env_lookup(&env, "host"), Some(b"example.org".to_vec()));
    assert_eq!(env_lookup(&env, "x-token"), Some(b"abc".to_vec()));
}

#[test]
fn duplicate_headers_keep_order_and_last_wins() {
    let headers = vec![
        (b"x".to_vec(), b"1".to_vec()),
        (b"y".to_vec(), b"2".to_vec()),
        (b"x".to_vec(), b"3".to_vec()),
    ];
    let env = script_environment(b"POST", b"/scripts/a", &headers);
    assert_eq!(env[0], (b"Method".to_vec(), b"POST".to_vec()));
    assert_eq!(env[1], (b"Path".to_vec(), b"/scripts/a".to_vec()));
    assert_eq!(env[2], (b"x".to_vec(), b"1".to_vec()));
    assert_eq!(env[4], (b"x".to_vec(), b"3".to_vec()));
    assert_eq!(env_lookup(&env, "x"), Some(b"3".to_vec()));
}

#[test]
fn trim_removes_spaces_and_tabs_only() {
    assert_eq!(trim_blanks(b"  a b\t "), b"a b".to_vec());
    assert_eq!(trim_blanks(b" \t "), Vec::<u8>::new());
    assert_eq!(trim_blanks(b""), Vec::<u8>::new());
    assert_eq!(trim_blanks(b"\nx\n"), b"\nx\n".to_vec());
}

#[test]
fn methods_are_matched_exactly() {
    assert_eq!(parse_method(b"GET"), Method::Get);
    assert_eq!(parse_method(b"POST"), Method::Post);
    assert_eq!(parse_method(b"Post"), Method::Other);
    assert_eq!(parse_method(b"PATCH"), Method::Other);
}

#[test]
fn request_line_is_split_into_method_and_target() {
    assert_eq!(
        parse_request_line(b"GET /index.html HTTP/1.1"),
        Some((b"GET".to_vec(), b"/index.html".to_vec()))
    );
    assert_eq!(
        parse_request_line(b"POST /scripts/echo HTTP/1.0"),
        Some((b"POST".to_vec(), b"/scripts/echo".to_vec()))
    );
}

#[test]
fn malformed_request_lines_are_refused() {
    for l in [
        &b""[..],
        b"GET",
        b"GET /index.html",
        b" /index.html HTTP/1.1",
        b"GET  /index.html HTTP/1.1",
        b"GET index.html HTTP/1.1",
        b"GET /index.html ",
        b"GET /a HTTP/1.1 extra",
    ] {
        assert_eq!(parse_request_line(l), None, "line {:?}", l);
    }
}
