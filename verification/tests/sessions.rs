use rusty_mvc::middleware::{MiddlewareMethod, MiddlewareSession};
use rusty_mvc::request::Request;
use rusty_mvc::response::Response;
use rusty_mvc::session::{DispatchStatus, Session};

/// A stage that records its tag as a response header and then signals
/// as told — or stays silent.
enum Stage {
    MarkAndContinue(&'static str),
    MarkAndTerminate(&'static str),
    SendAndTerminate(&'static str),
    MarkSilently(&'static str),
    ContinueThenTerminate(&'static str),
}

impl MiddlewareMethod for Stage {
    fn call(&self, _req: &Request, res: &mut Response, ctl: &mut MiddlewareSession) {
        match self {
            Stage::MarkAndContinue(tag) => {
                res.headers.insert(tag.to_string(), "ran".to_string());
                ctl.next();
            }
            Stage::MarkAndTerminate(tag) => {
                res.headers.insert(tag.to_string(), "ran".to_string());
                ctl.terminate();
            }
            Stage::SendAndTerminate(body) => {
                res.send(body).unwrap();
                ctl.terminate();
            }
            Stage::MarkSilently(tag) => {
                res.headers.insert(tag.to_string(), "ran".to_string());
            }
            Stage::ContinueThenTerminate(tag) => {
                res.headers.insert(tag.to_string(), "ran".to_string());
                ctl.next();
                ctl.terminate();
            }
        }
    }
}

fn plain_request() -> Request {
    Request::new("GET / HTTP/1.1\r\n\r\n").unwrap()
}

#[test]
fn terminate_in_before_skips_then_phase() {
    // Stages `[before: S1(terminate)], [then: S2]`: S1 runs, S2 does
    // not.
    let mut session = Session::new();
    session.before(Stage::MarkAndTerminate("S1"));
    session.then_stage(Stage::MarkAndContinue("S2"));
    let req = plain_request();
    let mut res = Response::new();
    let report = session.dispatch(&req, &mut res);
    assert!(res.headers.get("S1").is_some());
    assert!(res.headers.get("S2").is_none());
    assert_eq!(report.stages_run, 1);
    assert!(matches!(report.status, DispatchStatus::Terminated));
}

#[test]
fn continue_reaches_the_sending_stage() {
    // Stages `[then: S1(continue), S2(terminate and send "Hello")]`:
    // the response carries body `Hello` and status 200.
    let mut session = Session::new();
    session.then_stage(Stage::MarkAndContinue("S1"));
    session.then_stage(Stage::SendAndTerminate("Hello"));
    let req = plain_request();
    let mut res = Response::new();
    let report = session.dispatch(&req, &mut res);
    assert_eq!(res.status, 200);
    assert_eq!(res.output, "HTTP/1.1 200 OK\r\nS1: ran\r\n\r\n\r\nHello".to_string());
    assert_eq!(report.stages_run, 2);
}

#[test]
fn silent_stage_stops_the_chain() {
    // A stage that returns without signaling still stops the chain: no
    // later stage runs.
    let mut session = Session::new();
    session.then_stage(Stage::MarkSilently("S1"));
    session.then_stage(Stage::MarkAndContinue("S2"));
    let req = plain_request();
    let mut res = Response::new();
    let report = session.dispatch(&req, &mut res);
    assert!(res.headers.get("S1").is_some());
    assert!(res.headers.get("S2").is_none());
    assert_eq!(report.stages_run, 1);
    assert!(matches!(report.status, DispatchStatus::Terminated));
}

#[test]
fn first_signal_wins() {
    // A stage that signals continue and then terminate has continued.
    let mut session = Session::new();
    session.then_stage(Stage::ContinueThenTerminate("S1"));
    session.then_stage(Stage::MarkAndContinue("S2"));
    let req = plain_request();
    let mut res = Response::new();
    let report = session.dispatch(&req, &mut res);
    assert!(res.headers.get("S2").is_some());
    assert_eq!(report.stages_run, 2);
    assert!(matches!(report.status, DispatchStatus::Completed));
}

#[test]
fn phases_run_in_order() {
    let mut session = Session::new();
    session.after(Stage::MarkAndContinue("A"));
    session.then_stage(Stage::MarkAndContinue("T"));
    session.before(Stage::MarkAndContinue("B"));
    let req = plain_request();
    let mut res = Response::new();
    let report = session.dispatch(&req, &mut res);
    assert_eq!(report.stages_run, 3);
    assert!(matches!(report.status, DispatchStatus::Completed));
    // Registration order decides within a phase; phase order is fixed,
    // so the header entries stand in before, then, after order.
    assert_eq!(res.headers.entry_at(0).0, "B".to_string());
    assert_eq!(res.headers.entry_at(1).0, "T".to_string());
    assert_eq!(res.headers.entry_at(2).0, "A".to_string());
}

#[test]
fn terminate_in_then_skips_after_phase() {
    let mut session = Session::new();
    session.then_stage(Stage::MarkAndTerminate("T"));
    session.after(Stage::MarkAndContinue("A"));
    let req = plain_request();
    let mut res = Response::new();
    let report = session.dispatch(&req, &mut res);
    assert!(res.headers.get("T").is_some());
    assert!(res.headers.get("A").is_none());
    assert_eq!(report.stages_run, 1);
}

#[test]
fn empty_session_completes() {
    let session: Session<Stage> = Session::new();
    let req = plain_request();
    let mut res = Response::new();
    let report = session.dispatch(&req, &mut res);
    assert_eq!(report.stages_run, 0);
    assert!(matches!(report.status, DispatchStatus::Completed));
    assert_eq!(res.output, "".to_string());
}

#[test]
fn control_handle_signals_once() {
    let mut ctl = MiddlewareSession::new();
    assert!(!ctl.proceeds());
    ctl.next();
    assert!(ctl.proceeds());
    ctl.terminate();
    assert!(ctl.proceeds());
    let mut ctl2 = MiddlewareSession::new();
    ctl2.terminate();
    ctl2.next();
    assert!(!ctl2.proceeds());
}
