use unicom::codec::{UnicomRequest, UnixMessage};
use unicom::api::MethodKind;
use unicom::error::{UnicomError, UnicomErrorKind};
use unicom::pending::{absorb, finish_request, PendingController, UnicomMessage};

#[test]
fn ids_are_never_reused() {
    let mut p = PendingController::new();
    let a = p.create();
    let b = p.create();
    let _ = p.get(a);
    let c = p.create();
    assert!(a < b && b < c);
    assert_eq!(a, 1);
}

#[test]
fn one_outcome_per_request() {
    let mut p = PendingController::new();
    let id = p.create();
    assert!(p.update(id, Ok(vec![1, 2])).is_ok());
    let second = p.update(id, Err(UnicomError::new(UnicomErrorKind::Internal, "x")));
    assert_eq!(second.unwrap_err().kind, UnicomErrorKind::ParameterInvalid);
    assert_eq!(p.get(id).unwrap(), vec![1, 2]);
    assert_eq!(p.get(id).unwrap_err().kind, UnicomErrorKind::NotFound);
}

#[test]
fn unknown_id_is_refused() {
    let mut p = PendingController::new();
    assert_eq!(p.update(77, Ok(vec![])).unwrap_err().kind, UnicomErrorKind::ParameterInvalid);
}

#[test]
fn empty_slot_gives_empty() {
    let mut p = PendingController::new();
    let id = p.create();
    assert_eq!(p.get(id).unwrap_err().kind, UnicomErrorKind::Empty);
}

#[test]
fn timeout_removes_slot() {
    let mut p = PendingController::new();
    let id = p.create();
    let r = finish_request(&mut p, id, false);
    assert_eq!(r.unwrap_err().kind, UnicomErrorKind::Timeout);
    assert_eq!(UnicomError::new(UnicomErrorKind::Timeout, "").http_status(), 504);
    // a late reply is dropped as an unknown id
    assert_eq!(p.update(id, Ok(vec![1])).unwrap_err().kind, UnicomErrorKind::ParameterInvalid);
}

#[test]
fn answered_request_takes_error_outcome() {
    let mut p = PendingController::new();
    let id = p.create();
    let m = UnixMessage::Error { id, error: UnicomError::new(UnicomErrorKind::NotFound, "no") };
    assert!(absorb(&mut p, m).is_none());
    let r = finish_request(&mut p, id, true);
    assert_eq!(r.unwrap_err().kind, UnicomErrorKind::NotFound);
}

#[test]
fn read_loop_hands_out_requests_and_quit() {
    let mut p = PendingController::new();
    let req = UnixMessage::Request {
        id: 5,
        data: UnicomRequest { node_name: "a".into(), name: "v".into(), method: MethodKind::GET, parameters: vec![] },
    };
    match absorb(&mut p, req) {
        Some(UnicomMessage::Request { id, data }) => {
            assert_eq!(id, 5);
            assert_eq!(data.name, "v");
        }
        _ => panic!("request expected"),
    }
    assert!(matches!(absorb(&mut p, UnixMessage::Quit), Some(UnicomMessage::Quit)));
    let stray = UnixMessage::Response { id: 9, data: vec![] };
    assert!(absorb(&mut p, stray).is_none());
}

#[test]
fn late_reply_is_dropped() {
    let mut p = PendingController::new();
    let id = p.create();
    let r = finish_request(&mut p, id, false);
    assert_eq!(r.unwrap_err().kind, UnicomErrorKind::Timeout);
    let late = UnixMessage::Response { id, data: vec![7] };
    assert!(absorb(&mut p, late).is_none());
    assert_eq!(p.get(id).unwrap_err().kind, UnicomErrorKind::NotFound);
    let other = p.create();
    assert!(absorb(&mut p, UnixMessage::Response { id: other, data: vec![8] }).is_none());
    assert_eq!(finish_request(&mut p, other, true).unwrap(), vec![8]);
}
