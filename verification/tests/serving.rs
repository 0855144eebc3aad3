use rusty_mvc::middleware::{MiddlewareMethod, MiddlewareSession};
use rusty_mvc::request::Request;
use rusty_mvc::response::Response;
use rusty_mvc::router::Router;
use rusty_mvc::server::{Server, ServeOutcome};
use rusty_mvc::session::Session;

/// A stage that sends a fixed body, or echoes a captured parameter.
enum Stage {
    SendAndTerminate(&'static str),
    EchoParam(&'static str),
}

impl MiddlewareMethod for Stage {
    fn call(&self, req: &Request, res: &mut Response, ctl: &mut MiddlewareSession) {
        match self {
            Stage::SendAndTerminate(body) => {
                res.send(body).unwrap();
                ctl.terminate();
            }
            Stage::EchoParam(name) => {
                let bound = match &req.params {
                    Some(params) => params.get(name).cloned(),
                    None => None,
                };
                match bound {
                    Some(v) => res.send(&v).unwrap(),
                    None => res.send("unbound").unwrap(),
                };
                ctl.terminate();
            }
        }
    }
}

fn single_stage_session(stage: Stage) -> Session<Stage> {
    let mut s = Session::new();
    s.then_stage(stage);
    s
}

#[test]
fn mount_resolution_prefers_the_longer_prefix() {
    // Mounts `{"": R1, "/inner": R2}`: the path `/inner/a-mystery`
    // resolves to R2, with the `/inner` prefix stripped before the
    // router matches.
    let mut r1 = Router::new();
    r1.get(
        "/inner/a-mystery".to_string(),
        single_stage_session(Stage::SendAndTerminate("r1")),
    );
    let mut r2 = Router::new();
    r2.get("/a-mystery".to_string(), single_stage_session(Stage::SendAndTerminate("r2")));
    let mut server = Server::new();
    server.register("/".to_string(), r1);
    server.register("/inner".to_string(), r2);
    let (res, outcome) = server.parse_incoming("GET /inner/a-mystery HTTP/1.1\r\n\r\n");
    assert!(matches!(outcome, ServeOutcome::Served(_, _)));
    assert_eq!(res.output, "HTTP/1.1 200 OK\r\n\r\n\r\nr2".to_string());
}

#[test]
fn root_mount_serves_other_paths() {
    let mut r1 = Router::new();
    r1.get("/other".to_string(), single_stage_session(Stage::SendAndTerminate("r1")));
    let mut r2 = Router::new();
    r2.get("/a-mystery".to_string(), single_stage_session(Stage::SendAndTerminate("r2")));
    let mut server = Server::new();
    server.register("/".to_string(), r1);
    server.register("/inner".to_string(), r2);
    let (res, outcome) = server.parse_incoming("GET /other HTTP/1.1\r\n\r\n");
    assert!(matches!(outcome, ServeOutcome::Served(_, _)));
    assert_eq!(res.output, "HTTP/1.1 200 OK\r\n\r\n\r\nr1".to_string());
}

#[test]
fn captured_parameter_reaches_the_stage() {
    let mut router = Router::new();
    router.get("/dogs/:id".to_string(), single_stage_session(Stage::EchoParam("id")));
    let mut server = Server::new();
    server.register("/".to_string(), router);
    let (res, outcome) = server.parse_incoming("GET /dogs/42 HTTP/1.1\r\n\r\n");
    match outcome {
        ServeOutcome::Served(req, report) => {
            assert_eq!(req.route, "/dogs/42".to_string());
            let params = req.params.as_ref().unwrap();
            assert_eq!(params.get("id"), Some(&"42".to_string()));
            assert_eq!(report.stages_run, 1);
        }
        _ => panic!("the route should have answered"),
    }
    assert_eq!(res.output, "HTTP/1.1 200 OK\r\n\r\n\r\n42".to_string());
}

#[test]
fn served_request_without_captures_has_no_params() {
    let mut router = Router::new();
    router.get("/plain".to_string(), single_stage_session(Stage::SendAndTerminate("ok")));
    let mut server = Server::new();
    server.register("/".to_string(), router);
    let (_res, outcome) = server.parse_incoming("GET /plain HTTP/1.1\r\n\r\n");
    match outcome {
        ServeOutcome::Served(req, _) => assert!(req.params.is_none()),
        _ => panic!("the route should have answered"),
    }
}

#[test]
fn lowercase_method_is_served() {
    // The method name parses with ASCII case folded, as the closed set
    // is matched after uppercasing.
    let mut router = Router::new();
    router.get("/x".to_string(), single_stage_session(Stage::SendAndTerminate("x")));
    let mut server = Server::new();
    server.register("/".to_string(), router);
    let (res, outcome) = server.parse_incoming("get /x HTTP/1.1\r\n\r\n");
    assert!(matches!(outcome, ServeOutcome::Served(_, _)));
    assert_eq!(res.output, "HTTP/1.1 200 OK\r\n\r\n\r\nx".to_string());
}

#[test]
fn malformed_text_yields_bad_request_response() {
    let server: Server<Stage> = Server::new();
    let (res, outcome) = server.parse_incoming("GET");
    assert!(matches!(outcome, ServeOutcome::BadRequest));
    assert_eq!(res.status, 400);
    assert_eq!(res.output, "HTTP/1.1 400 Bad Request\r\n\r\n\r\n".to_string());
}

#[test]
fn unrouted_request_yields_not_found_response() {
    let server: Server<Stage> = Server::new();
    let (res, outcome) = server.parse_incoming("GET /nowhere HTTP/1.1\r\n\r\n");
    assert!(matches!(outcome, ServeOutcome::RouteMiss));
    assert_eq!(res.status, 404);
    assert_eq!(res.output, "HTTP/1.1 404 Not Found\r\n\r\n\r\n".to_string());
}

#[test]
fn unknown_method_yields_not_found() {
    let mut router = Router::new();
    router.get("/x".to_string(), single_stage_session(Stage::SendAndTerminate("x")));
    let mut server = Server::new();
    server.register("/".to_string(), router);
    let (res, outcome) = server.parse_incoming("BREW /x HTTP/1.1\r\n\r\n");
    assert!(matches!(outcome, ServeOutcome::RouteMiss));
    assert_eq!(res.status, 404);
}

#[test]
fn wildcard_is_not_an_incoming_method() {
    // `ALL` is for registration only: an incoming `*` finds nothing.
    let mut router = Router::new();
    router.get("/x".to_string(), single_stage_session(Stage::SendAndTerminate("x")));
    let mut server = Server::new();
    server.register("/".to_string(), router);
    let (_res, outcome) = server.parse_incoming("* /x HTTP/1.1\r\n\r\n");
    assert!(matches!(outcome, ServeOutcome::RouteMiss));
}

#[test]
fn mount_registration_replaces_same_prefix() {
    let mut r1 = Router::new();
    r1.get("/x".to_string(), single_stage_session(Stage::SendAndTerminate("old")));
    let mut r2 = Router::new();
    r2.get("/x".to_string(), single_stage_session(Stage::SendAndTerminate("new")));
    let mut server = Server::new();
    server.register("/api".to_string(), r1);
    server.register("/api".to_string(), r2);
    let (res, _) = server.parse_incoming("GET /api/x HTTP/1.1\r\n\r\n");
    assert_eq!(res.output, "HTTP/1.1 200 OK\r\n\r\n\r\nnew".to_string());
}
