use rusty_mvc::errors::HttpError;
use rusty_mvc::kvmap::KvMap;
use rusty_mvc::middleware::{MiddlewareMethod, MiddlewareSession};
use rusty_mvc::request::Request;
use rusty_mvc::response::Response;
use rusty_mvc::router::{match_template, Methods, Router};
use rusty_mvc::session::Session;

/// A stage that records its tag as a response header, sends its tag as
/// a body when asked, and then signals as told.
enum Stage {
    MarkAndContinue(&'static str),
    MarkAndTerminate(&'static str),
    SendAndTerminate(&'static str),
}

impl MiddlewareMethod for Stage {
    fn call(&self, _req: &Request, res: &mut Response, ctl: &mut MiddlewareSession) {
        match self {
            Stage::MarkAndContinue(tag) => {
                res.headers.insert(tag.to_string(), "ran".to_string());
                ctl.next();
            }
            Stage::MarkAndTerminate(tag) => {
                res.headers.insert(tag.to_string(), "ran".to_string());
                ctl.terminate();
            }
            Stage::SendAndTerminate(body) => {
                res.send(body).unwrap();
                ctl.terminate();
            }
        }
    }
}

fn single_stage_session(stage: Stage) -> Session<Stage> {
    let mut s = Session::new();
    s.then_stage(stage);
    s
}

#[test]
fn template_capture_matches_and_binds() {
    // Template `/dogs/:id` against path `/dogs/42` matches and binds.
    let params = match_template("/dogs/:id", "/dogs/42").unwrap();
    assert_eq!(params.get("id"), Some(&"42".to_string()));
}

#[test]
fn template_literal_mismatch_fails() {
    assert!(match_template("/dogs/:id", "/cats/42").is_none());
}

#[test]
fn template_needs_equal_segment_counts() {
    // Matching is strict about length: a shorter template is no prefix
    // match.
    assert!(match_template("/dogs", "/dogs/extra/stuff").is_none());
    assert!(match_template("/dogs/extra", "/dogs").is_none());
    assert!(match_template("/dogs", "/dogs").is_some());
}

#[test]
fn template_without_captures_gives_empty_params() {
    let params = match_template("/a/b", "/a/b").unwrap();
    assert_eq!(params.len(), 0);
}

#[test]
fn template_two_captures() {
    let params = match_template("/:kind/:id", "/dogs/7").unwrap();
    assert_eq!(params.get("kind"), Some(&"dogs".to_string()));
    assert_eq!(params.get("id"), Some(&"7".to_string()));
}

#[test]
fn find_route_on_empty_router_is_not_found() {
    let router: Router<Stage> = Router::new();
    let r = router.find_route(Methods::GET, "/x");
    assert!(matches!(r, Err(HttpError::NotFound)));
}

#[test]
fn find_route_respects_method() {
    let mut router = Router::new();
    router.post("/x".to_string(), single_stage_session(Stage::SendAndTerminate("posted")));
    assert!(router.find_route(Methods::GET, "/x").is_err());
    assert!(router.find_route(Methods::POST, "/x").is_ok());
}

#[test]
fn wildcard_registration_covers_every_method() {
    let mut router = Router::new();
    router.route(
        Methods::ALL,
        "/x".to_string(),
        single_stage_session(Stage::SendAndTerminate("any")),
    );
    assert!(router.find_route(Methods::GET, "/x").is_ok());
    assert!(router.find_route(Methods::DELETE, "/x").is_ok());
}

#[test]
fn registration_overwrite_keeps_only_second() {
    // Registering GET `/x` twice leaves only the second chain
    // reachable.
    let mut router = Router::new();
    router.get("/x".to_string(), single_stage_session(Stage::SendAndTerminate("first")));
    router.get("/x".to_string(), single_stage_session(Stage::SendAndTerminate("second")));
    let (session, _params) = router.find_route(Methods::GET, "/x").unwrap();
    let req = Request::new("GET /x HTTP/1.1\r\n\r\n").unwrap();
    let mut res = Response::new();
    session.dispatch(&req, &mut res);
    assert_eq!(res.output, "HTTP/1.1 200 OK\r\n\r\n\r\nsecond".to_string());
}

#[test]
fn earliest_matching_registration_wins() {
    // A literal route registered before a capture route wins for its
    // own path; the capture route still serves other paths.
    let mut router = Router::new();
    router.get("/dogs/home".to_string(), single_stage_session(Stage::SendAndTerminate("home")));
    router.get("/dogs/:id".to_string(), single_stage_session(Stage::SendAndTerminate("dog")));
    let req = Request::new("GET /dogs/home HTTP/1.1\r\n\r\n").unwrap();
    let mut res = Response::new();
    let (session, _) = router.find_route(Methods::GET, "/dogs/home").unwrap();
    session.dispatch(&req, &mut res);
    assert_eq!(res.output, "HTTP/1.1 200 OK\r\n\r\n\r\nhome".to_string());
    let (other, params) = router.find_route(Methods::GET, "/dogs/9").unwrap();
    let mut res2 = Response::new();
    other.dispatch(&req, &mut res2);
    assert_eq!(res2.output, "HTTP/1.1 200 OK\r\n\r\n\r\ndog".to_string());
    assert_eq!(params.get("id"), Some(&"9".to_string()));
}

#[test]
fn method_names_parse_to_the_closed_set() {
    assert_eq!(Methods::from_name("GET"), Some(Methods::GET));
    assert_eq!(Methods::from_name("POST"), Some(Methods::POST));
    assert_eq!(Methods::from_name("PUT"), Some(Methods::PUT));
    assert_eq!(Methods::from_name("DELETE"), Some(Methods::DELETE));
    assert_eq!(Methods::from_name("PATCH"), Some(Methods::PATCH));
    assert_eq!(Methods::from_name("*"), Some(Methods::ALL));
    assert_eq!(Methods::from_name("BREW"), None);
    assert_eq!(Methods::from_name("brew"), None);
}

#[test]
fn method_names_parse_case_insensitively() {
    assert_eq!(Methods::from_name("get"), Some(Methods::GET));
    assert_eq!(Methods::from_name("Post"), Some(Methods::POST));
    assert_eq!(Methods::from_name("pUt"), Some(Methods::PUT));
    assert_eq!(Methods::from_name("delete"), Some(Methods::DELETE));
    assert_eq!(Methods::from_name("patch"), Some(Methods::PATCH));
}

#[test]
fn kvmap_insert_replaces_in_place() {
    let mut m: KvMap<String> = KvMap::new();
    m.insert("a".to_string(), "1".to_string());
    m.insert("b".to_string(), "2".to_string());
    m.insert("a".to_string(), "3".to_string());
    assert_eq!(m.len(), 2);
    assert_eq!(m.get("a"), Some(&"3".to_string()));
    assert_eq!(m.get("b"), Some(&"2".to_string()));
    assert_eq!(m.entry_at(0).0, "a".to_string());
    assert_eq!(m.entry_at(1).0, "b".to_string());
    assert!(!m.contains_key("c"));
}

#[test]
fn test() {
    let mut router = Router::new();
    router.get(
        "/".to_string(),
        single_stage_session(Stage::SendAndTerminate("./static/index.html")),
    );
    assert!(router.find_route(Methods::GET, "/").is_ok());
}
