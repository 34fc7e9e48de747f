use std::collections::HashMap;
use std::io::Read;

use http_server::error::Error;
use http_server::path::is_contained;
use http_server::prelude::{MimeType, StatusCode};
use http_server::request::Request;
use http_server::response::Response;
use http_server::router::{segments, store_groups, Context, Node, RouteHandler, Router};
use http_server::routes::{
    dispatch, echo, file_read, file_written, files, home, method_guard, path_guard, routes,
    serve_file, settle, upload_file, user_agent, Action, FileRead, FileWrite,
};
use http_server::prelude::Method;

const ROOT: &str = "/srv/www";

fn router() -> Router {
    Router::build(&routes()).unwrap()
}

fn request(text: &str) -> Request {
    Request::parse(text.as_bytes()).unwrap()
}

fn respond(action: Action) -> Response {
    match action {
        Action::Respond(response) => response,
        other => panic!("expected a response, got {:?}", other),
    }
}

fn split_head(bytes: &[u8]) -> (String, Vec<u8>) {
    let at = bytes.windows(4).position(|w| w == b"\r\n\r\n").unwrap();
    (String::from_utf8(bytes[..at + 4].to_vec()).unwrap(), bytes[at + 4..].to_vec())
}

#[test]
fn get_echo_answers_with_the_message() {
    let rq = request("GET /echo/hello HTTP/1.1\r\n\r\n");
    let mut response = respond(router().handle(&rq, ROOT));
    assert_eq!(response.code, StatusCode::Okay);
    let content = response.content.clone().unwrap();
    assert_eq!(content.mime_type, MimeType::PlainText);
    assert_eq!(content.body, "hello");
    assert_eq!(
        response.encode(),
        b"HTTP/1.1 200 OK\r\nContent-Type: text/plain\r\nContent-Length: 5\r\n\r\nhello".to_vec()
    );
}

#[test]
fn unknown_path_is_not_found() {
    let rq = request("GET /does-not-exist HTTP/1.1\r\n\r\n");
    let response = respond(router().handle(&rq, ROOT));
    assert_eq!(response.code, StatusCode::NotFound);
    assert!(response.content.is_none());
}

#[test]
fn post_to_home_is_not_allowed() {
    let rq = request("POST / HTTP/1.1\r\n\r\n");
    let response = respond(router().handle(&rq, ROOT));
    assert_eq!(response.code, StatusCode::MethodNotAllowed);
}

#[test]
fn get_home_is_empty_ok() {
    let rq = request("GET / HTTP/1.1\r\n\r\n");
    let mut response = respond(router().handle(&rq, ROOT));
    assert_eq!(response.code, StatusCode::Okay);
    assert_eq!(response.encode(), b"HTTP/1.1 200 OK\r\n\r\n".to_vec());
}

#[test]
fn file_name_that_leaves_the_root_is_forbidden() {
    let rq = request("GET /files/.. HTTP/1.1\r\n\r\n");
    let response = respond(router().handle(&rq, ROOT));
    assert_eq!(response.code, StatusCode::Forbidden);
    let rq = request("POST /files/.. HTTP/1.1\r\nContent-Type: text/plain\r\nContent-Length: 1\r\n\r\nx");
    let response = respond(router().handle(&rq, ROOT));
    assert_eq!(response.code, StatusCode::Forbidden);
}

#[test]
fn path_with_more_segments_than_the_route_is_not_found() {
    let rq = request("GET /files/../secret HTTP/1.1\r\n\r\n");
    let response = respond(router().handle(&rq, ROOT));
    assert_eq!(response.code, StatusCode::NotFound);
}

#[test]
fn upload_then_download_gives_the_body_back() {
    let router = router();
    let mut disk: HashMap<String, String> = HashMap::new();

    let post = request(
        "POST /files/foo.txt HTTP/1.1\r\nContent-Type: application/octet-stream\r\nContent-Length: 3\r\n\r\nabc",
    );
    match router.handle(&post, ROOT) {
        Action::WriteFile(path, text) => {
            assert_eq!(path, "foo.txt");
            assert_eq!(text, "abc");
            disk.insert(path, text);
        }
        other => panic!("expected a write, got {:?}", other),
    }
    let (created, fault) = settle(&post, file_written(&post, FileWrite::Done));
    assert!(fault.is_none());
    assert_eq!(created.code, StatusCode::Created);
    assert!(created.content.is_none());

    let get = request("GET /files/foo.txt HTTP/1.1\r\n\r\n");
    let outcome = match router.handle(&get, ROOT) {
        Action::ReadFile(path) => {
            assert_eq!(path, "foo.txt");
            match disk.get(&path) {
                Some(text) => FileRead::Contents(text.clone()),
                None => FileRead::Missing,
            }
        }
        other => panic!("expected a read, got {:?}", other),
    };
    let (mut served, fault) = settle(&get, file_read(&get, outcome));
    assert!(fault.is_none());
    assert_eq!(served.code, StatusCode::Okay);
    assert_eq!(served.content.clone().unwrap().body, "abc");
    assert_eq!(served.content.clone().unwrap().mime_type, MimeType::OctetStream);
    assert_eq!(
        served.encode(),
        b"HTTP/1.1 200 OK\r\nContent-Type: application/octet-stream\r\nContent-Length: 3\r\n\r\nabc".to_vec()
    );
}

#[test]
fn missing_file_is_not_found() {
    let get = request("GET /files/none.txt HTTP/1.1\r\n\r\n");
    let (response, fault) = settle(&get, file_read(&get, FileRead::Missing));
    assert!(fault.is_none());
    assert_eq!(response.code, StatusCode::NotFound);
}

#[test]
fn failed_file_access_is_an_internal_error() {
    let get = request("GET /files/a.txt HTTP/1.1\r\n\r\n");
    assert_eq!(file_read(&get, FileRead::Failed).unwrap_err(), Error::Io);
    assert_eq!(file_written(&get, FileWrite::Failed).unwrap_err(), Error::Io);
    let (response, fault) = settle(&get, file_read(&get, FileRead::Failed));
    assert_eq!(fault, Some(Error::Io));
    assert_eq!(response.code, StatusCode::InternalError);
    assert!(response.content.is_none());
}

#[test]
fn upload_without_content_is_an_internal_error() {
    let post = request("POST /files/foo.txt HTTP/1.1\r\n\r\n");
    match router().handle(&post, ROOT) {
        Action::Fail(error, response) => {
            assert_eq!(error, Error::MissingContent);
            assert_eq!(response.code, StatusCode::InternalError);
        }
        other => panic!("expected a failure, got {:?}", other),
    }
}

#[test]
fn user_agent_is_echoed() {
    let rq = request("GET /user-agent HTTP/1.1\r\nUser-Agent: curl/8.0\r\n\r\n");
    let response = respond(router().handle(&rq, ROOT));
    assert_eq!(response.code, StatusCode::Okay);
    assert_eq!(response.content.unwrap().body, "curl/8.0");
}

#[test]
fn missing_user_agent_is_an_internal_error() {
    let rq = request("GET /user-agent HTTP/1.1\r\n\r\n");
    assert_eq!(user_agent(&rq, Context::new()).unwrap_err(), Error::MissingUserAgent);
    match router().handle(&rq, ROOT) {
        Action::Fail(error, response) => {
            assert_eq!(error, Error::MissingUserAgent);
            assert_eq!(response.code, StatusCode::InternalError);
        }
        other => panic!("expected a failure, got {:?}", other),
    }
}

#[test]
fn handlers_miss_what_was_not_captured() {
    let rq = request("GET /echo/x HTTP/1.1\r\n\r\n");
    assert_eq!(echo(&rq, Context::new()).unwrap_err(), Error::MissingMessage);
    assert_eq!(files(&rq, Context::new(), ROOT).unwrap_err(), Error::MissingFilename);
    assert_eq!(
        dispatch(RouteHandler::Echo, &rq, Context::new(), ROOT).unwrap_err(),
        Error::MissingMessage
    );
    assert_eq!(home(&rq, Context::new()).unwrap().code, StatusCode::Okay);
}

#[test]
fn method_guard_lets_listed_methods_pass() {
    let get = request("GET / HTTP/1.1\r\n\r\n");
    let post = request("POST / HTTP/1.1\r\n\r\n");
    assert!(method_guard(&get, &[Method::Get]).is_none());
    assert!(method_guard(&post, &[Method::Get, Method::Post]).is_none());
    assert_eq!(
        method_guard(&post, &[Method::Get]).unwrap().unwrap().code,
        StatusCode::MethodNotAllowed
    );
    assert_eq!(method_guard(&get, &[]).unwrap().unwrap().code, StatusCode::MethodNotAllowed);
}

#[test]
fn path_guard_refuses_what_leaves_the_root() {
    let get = request("GET / HTTP/1.1\r\n\r\n");
    assert!(path_guard(&get, ROOT, "a.txt").is_none());
    assert_eq!(path_guard(&get, ROOT, "../a.txt").unwrap().unwrap().code, StatusCode::Forbidden);
    assert_eq!(path_guard(&get, ROOT, "/etc/passwd").unwrap().unwrap().code, StatusCode::Forbidden);
}

#[test]
fn containment_follows_the_components() {
    assert!(is_contained("/srv/www", "index.html"));
    assert!(is_contained("/srv/www", "a/b/c"));
    assert!(is_contained("/srv/www", "a/../b"));
    assert!(is_contained("/srv/www", "./a//b/"));
    assert!(is_contained("/srv/www", ""));
    assert!(is_contained("/srv/www", "."));
    assert!(is_contained("/srv/www", "/srv/www/a"));
    assert!(is_contained("/srv/www", "/srv/www"));
    assert!(is_contained("/srv/www", "/srv/./x/../www/a"));
    assert!(is_contained("/srv/www/", "../www/a"));
    assert!(!is_contained("/srv/www", ".."));
    assert!(!is_contained("/srv/www", "../secret"));
    assert!(!is_contained("/srv/www", "a/../../secret"));
    assert!(!is_contained("/srv/www", "/etc/passwd"));
    assert!(!is_contained("/srv/www", "/srv/wwwx"));
    assert!(!is_contained("/srv/www", "/srv"));
    assert!(!is_contained("/srv/www", "/"));
    assert!(is_contained("/", "../../etc"));
    assert!(is_contained("", "anything"));
}

#[test]
fn segments_skip_empty_parts() {
    assert_eq!(segments("/a//b/"), vec!["a", "b"]);
    assert_eq!(segments("a"), vec!["a"]);
    assert!(segments("/").is_empty());
    assert!(segments("").is_empty());
    assert_eq!(segments("/files/{x}/y"), vec!["files", "{x}", "y"]);
}

#[test]
fn duplicate_slashes_lead_to_the_same_handler() {
    let router = router();
    let (handler, context) = router.get("//echo///abc/").unwrap();
    assert_eq!(handler, RouteHandler::Echo);
    assert_eq!(context.get("message"), Some(&"abc".to_string()));
    assert_eq!(router.get("").unwrap().0, RouteHandler::Home);
}

#[test]
fn pattern_matches_anywhere_in_the_segment() {
    let router = router();
    let (handler, context) = router.get("/echo/ab-cd").unwrap();
    assert_eq!(handler, RouteHandler::Echo);
    assert_eq!(context.get("message"), Some(&"ab".to_string()));
    assert!(router.get("/echo/---").is_none());
    assert!(router.get("/echo").is_none());
    assert!(router.get("/echo/a/b").is_none());
}

#[test]
fn file_names_may_hold_dots_and_dashes() {
    let (handler, context) = router().get("/files/my-file_v1.2.txt").unwrap();
    assert_eq!(handler, RouteHandler::Files);
    assert_eq!(context.get("filename"), Some(&"my-file_v1.2.txt".to_string()));
    assert_eq!(context.len(), 1);
}

#[test]
fn literal_child_decides_alone() {
    let table = [
        ("/{(?<any>.+)}/end", RouteHandler::Echo),
        ("/fixed/other", RouteHandler::Home),
    ];
    let router = Router::build(&table).unwrap();
    assert_eq!(router.get("/free/end").unwrap().0, RouteHandler::Echo);
    assert_eq!(router.get("/fixed/other").unwrap().0, RouteHandler::Home);
    assert!(router.get("/fixed/end").is_none());
}

#[test]
fn patterns_are_tried_in_the_order_of_the_table() {
    let first = [
        ("/{(?<digits>[0-9]+)}", RouteHandler::Echo),
        ("/{(?<word>\\w+)}", RouteHandler::Files),
    ];
    let router = Router::build(&first).unwrap();
    let (handler, context) = router.get("/123").unwrap();
    assert_eq!(handler, RouteHandler::Echo);
    assert_eq!(context.get("digits"), Some(&"123".to_string()));
    assert_eq!(context.get("word"), None);
    let (handler, context) = router.get("/abc").unwrap();
    assert_eq!(handler, RouteHandler::Files);
    assert_eq!(context.get("word"), Some(&"abc".to_string()));

    let second = [
        ("/{(?<word>\\w+)}", RouteHandler::Files),
        ("/{(?<digits>[0-9]+)}", RouteHandler::Echo),
    ];
    let router = Router::build(&second).unwrap();
    assert_eq!(router.get("/123").unwrap().0, RouteHandler::Files);
}

#[test]
fn failed_pattern_leaves_nothing_in_the_context() {
    let table = [
        ("/{(?<first>\\w+)}/a", RouteHandler::Echo),
        ("/{(?<second>\\w+)}/b", RouteHandler::Files),
    ];
    let router = Router::build(&table).unwrap();
    let (handler, context) = router.get("/x/b").unwrap();
    assert_eq!(handler, RouteHandler::Files);
    assert_eq!(context.len(), 1);
    assert_eq!(context.get("second"), Some(&"x".to_string()));
    assert_eq!(context.get("first"), None);
}

#[test]
fn captures_of_all_levels_are_kept() {
    let table = [("/{(?<a>\\w+)}/{(?<b>\\w+)}", RouteHandler::Echo)];
    let router = Router::build(&table).unwrap();
    let (_, context) = router.get("/one/two").unwrap();
    assert_eq!(context.len(), 2);
    assert_eq!(context.get("a"), Some(&"one".to_string()));
    assert_eq!(context.get("b"), Some(&"two".to_string()));
    assert_eq!(context.name_at(0), "b");
    assert_eq!(context.name_at(1), "a");
}

#[test]
fn outer_capture_replaces_inner_one_of_the_same_name() {
    let table = [("/{(?<x>\\w+)}/{(?<x>\\w+)}", RouteHandler::Echo)];
    let router = Router::build(&table).unwrap();
    let (_, context) = router.get("/one/two").unwrap();
    assert_eq!(context.len(), 1);
    assert_eq!(context.get("x"), Some(&"one".to_string()));
}

#[test]
fn group_that_took_no_part_is_not_captured() {
    let table = [("/{(?<a>x)|(?<b>y)}", RouteHandler::Echo)];
    let router = Router::build(&table).unwrap();
    let (_, context) = router.get("/y").unwrap();
    assert_eq!(context.get("a"), None);
    assert_eq!(context.get("b"), Some(&"y".to_string()));
}

#[test]
fn later_route_replaces_the_endpoint() {
    let table = [("/a", RouteHandler::Home), ("/a/", RouteHandler::Echo)];
    let router = Router::build(&table).unwrap();
    assert_eq!(router.get("/a").unwrap().0, RouteHandler::Echo);
}

#[test]
fn bad_pattern_fails_the_build() {
    let table = [("/ok", RouteHandler::Home), ("/{(unclosed}", RouteHandler::Echo)];
    assert_eq!(Router::build(&table).unwrap_err(), Error::InvalidPattern);
}

#[test]
fn lone_brace_is_a_literal() {
    let table = [("/{", RouteHandler::Home), ("/{}", RouteHandler::Echo)];
    let router = Router::build(&table).unwrap();
    assert_eq!(router.get("/{").unwrap().0, RouteHandler::Home);
    assert_eq!(router.get("/anything").unwrap().0, RouteHandler::Echo);
}

#[test]
fn node_finds_what_was_applied() {
    let mut node = Node::new();
    let mut context = Context::new();
    assert!(node.get(&[], &mut context).is_none());
    node.apply(&["a", "{(?<id>[0-9]+)}"], RouteHandler::Files);
    node.apply(&[], RouteHandler::Home);
    assert_eq!(node.get(&[], &mut context), Some(RouteHandler::Home));
    assert_eq!(context.len(), 0);
    assert_eq!(node.get(&["a", "x"], &mut context), None);
    assert_eq!(context.len(), 0);
    assert_eq!(node.get(&["a", "42"], &mut context), Some(RouteHandler::Files));
    assert_eq!(context.get("id"), Some(&"42".to_string()));
}

#[test]
fn gzip_is_applied_when_the_request_accepts_it() {
    let rq = request("GET /echo/hello HTTP/1.1\r\nAccept-Encoding: gzip\r\n\r\n");
    let mut response = respond(router().handle(&rq, ROOT));
    let (head, body) = split_head(&response.encode());
    assert!(head.starts_with("HTTP/1.1 200 OK\r\n"));
    assert!(head.contains("\r\nContent-Encoding: gzip\r\n"));
    assert!(head.contains("\r\nContent-Type: text/plain\r\n"));
    assert!(head.contains(&format!("\r\nContent-Length: {}\r\n", body.len())));
    let mut decoded = String::new();
    flate2::read::GzDecoder::new(&body[..]).read_to_string(&mut decoded).unwrap();
    assert_eq!(decoded, "hello");
}

#[test]
fn only_named_groups_that_matched_are_stored() {
    let mut context = Context::new();
    context.insert("kept".to_string(), "old".to_string());
    context.insert("id".to_string(), "old".to_string());
    let groups = vec![
        (None, Some("whole".to_string())),
        (Some("id".to_string()), Some("1".to_string())),
        (Some("absent".to_string()), None),
        (None, None),
        (Some("id".to_string()), Some("2".to_string())),
        (Some("name".to_string()), Some("".to_string())),
    ];
    store_groups(&mut context, &groups);
    assert_eq!(context.len(), 3);
    assert_eq!(context.get("kept"), Some(&"old".to_string()));
    assert_eq!(context.get("id"), Some(&"2".to_string()));
    assert_eq!(context.get("name"), Some(&"".to_string()));
    assert_eq!(context.get("absent"), None);
    assert_eq!(context.name_at(1), "id");
    assert_eq!(context.name_at(2), "name");
}

#[test]
fn routers_can_be_copied() {
    let router = router();
    let copy = router.clone();
    drop(router);
    let (handler, context) = copy.get("/files/a.txt").unwrap();
    assert_eq!(handler, RouteHandler::Files);
    assert_eq!(context.clone().get("filename"), Some(&"a.txt".to_string()));
}

#[test]
fn literal_routes_behave_as_a_map() {
    let table = [
        ("/a", RouteHandler::Home),
        ("/a/b", RouteHandler::Echo),
        ("/c/d", RouteHandler::Files),
        ("/a", RouteHandler::UserAgent),
    ];
    let router = Router::build(&table).unwrap();
    assert_eq!(router.get("/a").unwrap().0, RouteHandler::UserAgent);
    assert_eq!(router.get("/a/b").unwrap().0, RouteHandler::Echo);
    assert_eq!(router.get("/c/d").unwrap().0, RouteHandler::Files);
    assert!(router.get("/c").is_none());
    assert!(router.get("/").is_none());
    assert!(router.get("/a/b/c").is_none());
    assert!(router.get("/b").is_none());
}

fn captured(name: &str) -> Context {
    let mut context = Context::new();
    context.insert("filename".to_string(), name.to_string());
    context
}

#[test]
fn download_asks_for_the_captured_file() {
    let get = request("GET /files/a.txt HTTP/1.1\r\n\r\n");
    match serve_file(&get, captured("a.txt"), ROOT).unwrap() {
        Action::ReadFile(path) => assert_eq!(path, "a.txt"),
        other => panic!("expected a read, got {:?}", other),
    }
    assert_eq!(serve_file(&get, Context::new(), ROOT).unwrap_err(), Error::MissingFilename);
}

#[test]
fn download_outside_the_root_is_forbidden_before_any_read() {
    let get = request("GET /files/x HTTP/1.1\r\n\r\n");
    for name in ["..", "../secret", "/etc/passwd", "a/../../b"] {
        let response = respond(serve_file(&get, captured(name), ROOT).unwrap());
        assert_eq!(response.code, StatusCode::Forbidden);
        assert!(response.content.is_none());
    }
}

#[test]
fn upload_asks_for_the_body_to_be_written() {
    let post = request(
        "POST /files/a.txt HTTP/1.1\r\nContent-Type: text/plain\r\nContent-Length: 3\r\n\r\nabc",
    );
    match upload_file(&post, captured("a.txt"), ROOT).unwrap() {
        Action::WriteFile(path, text) => {
            assert_eq!(path, "a.txt");
            assert_eq!(text, "abc");
        }
        other => panic!("expected a write, got {:?}", other),
    }
    let response = respond(upload_file(&post, captured("../a.txt"), ROOT).unwrap());
    assert_eq!(response.code, StatusCode::Forbidden);
}

#[test]
fn upload_without_content_or_name_fails_before_any_write() {
    let bare = request("POST /files/a.txt HTTP/1.1\r\n\r\n");
    assert_eq!(upload_file(&bare, captured("a.txt"), ROOT).unwrap_err(), Error::MissingContent);
    assert_eq!(upload_file(&bare, Context::new(), ROOT).unwrap_err(), Error::MissingFilename);
    let outside = respond(upload_file(&bare, captured(".."), ROOT).unwrap());
    assert_eq!(outside.code, StatusCode::Forbidden);
}

#[test]
fn files_goes_by_the_method() {
    let get = request("GET /files/a.txt HTTP/1.1\r\n\r\n");
    assert!(matches!(files(&get, captured("a.txt"), ROOT).unwrap(), Action::ReadFile(_)));
    let post = request(
        "POST /files/a.txt HTTP/1.1\r\nContent-Type: text/plain\r\nContent-Length: 1\r\n\r\nx",
    );
    assert!(matches!(files(&post, captured("a.txt"), ROOT).unwrap(), Action::WriteFile(_, _)));
}
