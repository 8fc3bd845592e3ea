use unicom::error::{UnicomError, UnicomErrorKind};
use unicom::logs::{LoggerMessage, Logs, LOG_CAP};

#[test]
fn buffer_is_capped() {
    let mut l = Logs::new();
    assert!(l.get_log("a").is_none());
    for i in 0..(LOG_CAP + 5) {
        l.add_app_log("a", &format!("line {}", i));
    }
    let lines = l.get_log("a").unwrap();
    assert_eq!(lines.len(), 300);
    assert_eq!(lines[0], "line 5");
    assert_eq!(lines[299], "line 304");
}

#[test]
fn buffers_are_per_app() {
    let mut l = Logs::new();
    l.add_app_log("a", "x");
    l.add_app_log("b", "y");
    l.add_app_log("a", "z");
    assert_eq!(l.get_log("a").unwrap(), &vec!["x".to_string(), "z".to_string()]);
    assert_eq!(l.get_log("b").unwrap(), &vec!["y".to_string()]);
}

#[test]
fn log_lines() {
    let mut l = Logs::new();
    let t = "2024-01-01T00:00:00+00:00".to_string();
    let out = l.new_log(LoggerMessage::App { app: "demo".into(), value: "hi".into(), err: false, time: t.clone() });
    assert_eq!(out, "[2024-01-01T00:00:00+00:00]demo|hi");
    let err = l.new_log(LoggerMessage::App { app: "demo".into(), value: "bad".into(), err: true, time: t.clone() });
    assert_eq!(err, "[2024-01-01T00:00:00+00:00]demo|[ERROR]bad");
    assert_eq!(l.get_log("demo").unwrap().len(), 2);
    let u = l.new_log(LoggerMessage::Unicom {
        context: "init".into(),
        value: UnicomError::new(UnicomErrorKind::Io, "boom"),
        time: t.clone(),
    });
    assert_eq!(u, "[2024-01-01T00:00:00+00:00]unicom|init : Io: boom");
    let h = l.new_log(LoggerMessage::Http {
        code: "200 OK".into(),
        method: "GET".into(),
        path: "/hi".into(),
        duration: "0.01".into(),
        time: t,
    });
    assert_eq!(h, "[2024-01-01T00:00:00+00:00]http|[200 OK]GET /hi 0.01");
}

#[test]
fn status_codes() {
    let codes: Vec<u16> = vec![
        UnicomErrorKind::NotFound,
        UnicomErrorKind::ParameterInvalid,
        UnicomErrorKind::InputInvalid,
        UnicomErrorKind::NotAllowed,
        UnicomErrorKind::Timeout,
        UnicomErrorKind::Empty,
        UnicomErrorKind::Internal,
        UnicomErrorKind::Io,
        UnicomErrorKind::Encoding,
    ]
    .into_iter()
    .map(|k| UnicomError::new(k, "").http_status())
    .collect();
    assert_eq!(codes, vec![404, 400, 400, 403, 504, 500, 500, 500, 500]);
}
