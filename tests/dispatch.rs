use unicom::api::{ApiConfig, ApiMethod, MethodKind, Parameter, ValueKind};
use unicom::codec::UnicomRequest;
use unicom::error::UnicomErrorKind;
use unicom::http::{add_http, body_kind, json_body, method_kind, parse_parameters, static_target, user_json, view_calls, BodyKind};
use unicom::number::is_float_text;
use unicom::session::{Session, User, UserLevel};
use unicom::system::{system_action, system_config, SystemAction};
use unicom::text::{parse_i64, parse_usize, split_at_char, starts_with};
use unicom::value::ParamValue;

fn value_of<'a>(p: &'a [(String, ParamValue)], k: &str) -> &'a ParamValue {
    &p.iter().find(|(n, _)| n == k).unwrap().1
}

fn text(v: &ParamValue) -> String {
    format!("{:?}", v)
}

#[test]
fn query_values_are_typed() {
    let p = parse_parameters(Some("a=1;b=2.5;c=hello;d;e=x=y;a=-3;f=1e3;g=inf"));
    let keys: Vec<&str> = p.iter().map(|(k, _)| k.as_str()).collect();
    assert_eq!(keys, vec!["a", "b", "c", "f", "g"]);
    assert_eq!(text(value_of(&p, "a")), text(&ParamValue::Int(-3)));
    assert_eq!(text(value_of(&p, "b")), text(&ParamValue::Number("2.5".into())));
    assert_eq!(text(value_of(&p, "c")), text(&ParamValue::Text("hello".into())));
    assert_eq!(text(value_of(&p, "f")), text(&ParamValue::Number("1e3".into())));
    assert_eq!(text(value_of(&p, "g")), text(&ParamValue::Number("inf".into())));
    assert!(parse_parameters(None).is_empty());
    assert!(parse_parameters(Some("")).is_empty());
}

#[test]
fn integers_and_floats() {
    assert_eq!(parse_i64("42"), Some(42));
    assert_eq!(parse_i64("+7"), Some(7));
    assert_eq!(parse_i64("-9223372036854775808"), Some(i64::MIN));
    assert_eq!(parse_i64("9223372036854775807"), Some(i64::MAX));
    assert_eq!(parse_i64("9223372036854775808"), None);
    assert_eq!(parse_i64("-"), None);
    assert_eq!(parse_i64(""), None);
    assert_eq!(parse_i64("1.0"), None);
    assert_eq!(parse_usize("0"), Some(0));
    assert_eq!(parse_usize("12a"), None);
    for t in ["1.5", ".5", "5.", "-2e-3", "+INF", "NaN", "infinity", "7E+2"] {
        assert!(is_float_text(t), "{}", t);
        assert!(t.parse::<f64>().is_ok());
    }
    for t in ["", ".", "e5", "1e", "1.2.3", "abc", "--1", "in"] {
        assert!(!is_float_text(t), "{}", t);
        assert!(t.parse::<f64>().is_err());
    }
}

#[test]
fn split_and_prefix() {
    assert_eq!(split_at_char("a;;b;", ';'), vec!["a", "", "b", ""]);
    assert_eq!(split_at_char("", ';'), vec![""]);
    assert!(starts_with("application/json; charset=utf-8", "application/json"));
    assert!(!starts_with("text/plain", "application/json"));
}

#[test]
fn body_kinds() {
    assert_eq!(body_kind(None, Some("application/json")).unwrap(), BodyKind::Absent);
    assert_eq!(body_kind(Some("0"), Some("application/json")).unwrap(), BodyKind::Absent);
    assert_eq!(body_kind(Some("12"), Some("application/json; charset=utf-8")).unwrap(), BodyKind::Json);
    assert_eq!(body_kind(Some("12"), Some("text/plain")).unwrap(), BodyKind::File);
    assert_eq!(body_kind(Some("12"), None).unwrap(), BodyKind::File);
    assert_eq!(body_kind(Some("x"), None).unwrap_err().kind, UnicomErrorKind::InputInvalid);
}

#[test]
fn methods() {
    assert_eq!(method_kind("GET").unwrap(), MethodKind::GET);
    assert_eq!(method_kind("DELETE").unwrap(), MethodKind::DELETE);
    assert_eq!(method_kind("PATCH").unwrap_err().kind, UnicomErrorKind::NotFound);
}

#[test]
fn binding_from_request_context() {
    let api = ApiMethod::new(MethodKind::POST, vec![
        Parameter::new("id", ValueKind::Url(1), true),
        Parameter::new("missing", ValueKind::Url(5), false),
        Parameter::new("sid", ValueKind::SessionID, true),
        Parameter::new("who", ValueKind::User, false),
        Parameter::new("body", ValueKind::Input, false),
        Parameter::new("q", ValueKind::Text, false),
    ]);
    let session = Session { id: "abc".into(), user: Some(User { name: "bo\"b".into(), level: UserLevel::Normal }), expire: 0 };
    let mut params = parse_parameters(Some("q=x;id=7"));
    let url = vec!["/item/42".to_string(), "42".to_string()];
    add_http(&api, &mut params, &url, &session, Some("{\"k\":1}".into()));
    assert_eq!(text(value_of(&params, "id")), text(&ParamValue::Text("42".into())));
    assert!(params.iter().all(|(k, _)| k != "missing"));
    assert_eq!(text(value_of(&params, "sid")), text(&ParamValue::Text("abc".into())));
    assert_eq!(text(value_of(&params, "who")), text(&ParamValue::Json("{\"name\":\"bo\\\"b\",\"level\":\"Normal\"}".into())));
    assert_eq!(text(value_of(&params, "body")), text(&ParamValue::Json("{\"k\":1}".into())));
    assert_eq!(text(value_of(&params, "q")), text(&ParamValue::Text("x".into())));
    let anon = Session { id: "s".into(), user: None, expire: 0 };
    let mut anon_params = Vec::new();
    add_http(&api, &mut anon_params, &vec!["/item/".to_string(), String::new()], &anon, None);
    assert_eq!(text(value_of(&anon_params, "who")), text(&ParamValue::Null));
    assert_eq!(text(value_of(&anon_params, "body")), text(&ParamValue::Null));
    assert!(anon_params.iter().all(|(k, _)| k != "id"));
}

#[test]
fn user_record_json() {
    let u = User { name: "ann".into(), level: UserLevel::Admin };
    assert_eq!(user_json(&u), "{\"name\":\"ann\",\"level\":\"Admin\"}");
}

#[test]
fn view_fan_out_plan() {
    let apis = vec![
        ("x".to_string(), ApiConfig { node: "a".into(), api: "v".into(), method: None, parameters: None }),
        ("y".to_string(), ApiConfig {
            node: "b".into(),
            api: "v".into(),
            method: Some(MethodKind::POST),
            parameters: Some(vec![("n".to_string(), ParamValue::Int(2)), ("z".to_string(), ParamValue::Bool(true))]),
        }),
    ];
    let query = parse_parameters(Some("n=1"));
    let calls = view_calls(&apis, MethodKind::GET, &query);
    assert_eq!(calls.len(), 2);
    assert_eq!((calls[0].slot.as_str(), calls[0].node.as_str(), calls[0].method), ("x", "a", MethodKind::GET));
    assert_eq!(text(value_of(&calls[0].parameters, "n")), text(&ParamValue::Int(1)));
    assert_eq!((calls[1].slot.as_str(), calls[1].node.as_str(), calls[1].method), ("y", "b", MethodKind::POST));
    assert_eq!(text(value_of(&calls[1].parameters, "n")), text(&ParamValue::Int(2)));
    assert_eq!(calls[1].parameters.len(), 2);
}

fn request(name: &str, params: Vec<(String, ParamValue)>) -> UnicomRequest {
    UnicomRequest { node_name: "system".into(), name: name.into(), method: MethodKind::GET, parameters: params }
}

#[test]
fn system_requests() {
    assert!(matches!(system_action(&request("nodes", vec![])).unwrap(), SystemAction::Nodes { tag: None }));
    match system_action(&request("nodes", vec![("tag".into(), ParamValue::Text("menu".into()))])).unwrap() {
        SystemAction::Nodes { tag: Some(t) } => assert_eq!(t, "menu"),
        _ => panic!("nodes expected"),
    }
    assert!(matches!(system_action(&request("apps", vec![])).unwrap(), SystemAction::Apps));
    match system_action(&request("app_reload", vec![("name".into(), ParamValue::Text("demo".into()))])).unwrap() {
        SystemAction::Reload { name } => assert_eq!(name, "demo"),
        _ => panic!("reload expected"),
    }
    match system_action(&request("app_stop", vec![("name".into(), ParamValue::Int(3))])).unwrap() {
        SystemAction::Stop { name } => assert_eq!(name, ""),
        _ => panic!("stop expected"),
    }
    let e = system_action(&request("app_log", vec![])).unwrap_err();
    assert_eq!(e.kind, UnicomErrorKind::ParameterInvalid);
    let auth = request("authenticate", vec![
        ("session_id".into(), ParamValue::Text("ab".into())),
        ("input".into(), ParamValue::Json("{\"login\":\"a\",\"password\":\"b\"}".into())),
    ]);
    assert!(matches!(system_action(&auth).unwrap(), SystemAction::Authenticate { .. }));
    assert!(matches!(system_action(&request("other", vec![])).unwrap(), SystemAction::Nothing));
}

#[test]
fn system_manifest() {
    let c = system_config(None);
    assert_eq!(c.name, "system");
    let names: Vec<&str> = c.apis.iter().map(|a| a.name.as_str()).collect();
    assert_eq!(names, vec!["nodes", "apps", "app_reload", "app_stop", "authenticate", "app_log", "app_update"]);
    assert_eq!(c.api("authenticate").unwrap().methods[0].kind, MethodKind::POST);
    assert_eq!(c.api("nodes").unwrap().methods[0].parameters[0].name, "tag");
    let ids: Vec<u64> = c.apis.iter().map(|a| a.id).collect();
    assert_eq!(ids, vec![0, 1, 2, 3, 4, 5, 6]);
    let auth = &c.api("authenticate").unwrap().methods[0].parameters;
    assert_eq!(auth[0].kind, ValueKind::SessionID);
    assert_eq!(auth[1].kind, ValueKind::Input);
    assert!(!c.api("nodes").unwrap().methods[0].parameters[0].mandatory);
    assert!(c.api("app_log").unwrap().methods[0].parameters[0].mandatory);
}

#[test]
fn static_files() {
    let with_group = vec!["/static/a.css".to_string(), "a.css".to_string()];
    assert_eq!(static_target("/srv/www", &with_group), ("/srv/www".to_string(), "a.css".to_string()));
    let whole = vec!["/favicon.ico".to_string()];
    assert_eq!(static_target("/srv/icon.ico", &whole), ("/".to_string(), "/srv/icon.ico".to_string()));
}

#[test]
fn json_bodies() {
    assert_eq!(json_body(b"{ \"a\" : [1, 2] }").unwrap(), "{\"a\":[1,2]}");
    assert_eq!(json_body(b"{\"a\":").unwrap_err().kind, UnicomErrorKind::InputInvalid);
    assert_eq!(json_body(b"").unwrap_err().kind, UnicomErrorKind::InputInvalid);
}

#[test]
fn user_json_escapes_controls() {
    let u = User { name: "a\u{1}\n\\é".into(), level: UserLevel::Root };
    assert_eq!(user_json(&u), "{\"name\":\"a\\u0001\\n\\\\é\",\"level\":\"Root\"}");
}
