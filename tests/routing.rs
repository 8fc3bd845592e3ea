use unicom::api::{ApiMethod, EndPoint, EndPointKind, MethodKind, NodeConfig, Parameter, ValueKind};
use unicom::error::UnicomErrorKind;
use unicom::router::Router;

fn rest(regex: &str, api: &str) -> EndPoint {
    EndPoint { regex: regex.to_string(), kind: EndPointKind::Rest { api: api.to_string() } }
}

#[test]
fn rest_route_is_found() {
    let mut r = Router::new();
    r.add("n1", vec![rest("/hi", "hello")]).unwrap();
    let (route, caps) = r.find("/hi").unwrap();
    assert_eq!(route.node, "n1");
    assert_eq!(route.pattern, "^/hi$");
    assert!(matches!(&route.kind, EndPointKind::Rest { api } if api == "hello"));
    assert_eq!(caps, vec!["/hi".to_string()]);
    assert_eq!(r.find("/hi/there").unwrap_err().kind, UnicomErrorKind::NotFound);
}

#[test]
fn url_capture_groups() {
    let mut r = Router::new();
    r.add("shop", vec![rest("/item/([0-9]+)", "item")]).unwrap();
    let (_, caps) = r.find("/item/42").unwrap();
    assert_eq!(caps, vec!["/item/42".to_string(), "42".to_string()]);
    assert_eq!(r.find("/item/abc").unwrap_err().kind, UnicomErrorKind::NotFound);
}

#[test]
fn missing_group_is_empty() {
    let mut r = Router::new();
    r.add("n", vec![rest("/a(/b)?", "x")]).unwrap();
    let (_, caps) = r.find("/a").unwrap();
    assert_eq!(caps, vec!["/a".to_string(), String::new()]);
}

#[test]
fn first_route_wins() {
    let mut r = Router::new();
    r.add("first", vec![rest("/x.*", "a")]).unwrap();
    r.add("second", vec![rest("/x", "b")]).unwrap();
    assert_eq!(r.find("/x").unwrap().0.node, "first");
}

#[test]
fn invalid_regex_is_refused_whole() {
    let mut r = Router::new();
    let e = r.add("n", vec![rest("/ok", "a"), rest("/bad(", "b")]).unwrap_err();
    assert_eq!(e.kind, UnicomErrorKind::ParameterInvalid);
    assert_eq!(r.find("/ok").unwrap_err().kind, UnicomErrorKind::NotFound);
}

#[test]
fn removed_node_is_unreachable() {
    let mut r = Router::new();
    r.add("a", vec![rest("/p", "x"), rest("/q", "y")]).unwrap();
    r.add("b", vec![rest("/p", "z"), rest("/r", "w")]).unwrap();
    r.remove("a");
    let (route, _) = r.find("/p").unwrap();
    assert_eq!(route.node, "b");
    assert_eq!(r.find("/q").unwrap_err().kind, UnicomErrorKind::NotFound);
    assert_eq!(r.find("/r").unwrap().0.node, "b");
}

#[test]
fn api_and_method_lookup() {
    let mut c = NodeConfig::new("n1");
    c.add_api(0, "hello", vec![ApiMethod::new(MethodKind::GET, vec![])]);
    c.add_api(1, "item", vec![ApiMethod::new(MethodKind::GET, vec![Parameter::new("id", ValueKind::Url(1), true)])]);
    let api = c.api("hello").unwrap();
    assert_eq!(api.id, 0);
    assert!(api.get_method(MethodKind::GET).is_ok());
    assert_eq!(api.get_method(MethodKind::POST).unwrap_err().kind, UnicomErrorKind::NotFound);
    assert_eq!(c.api("nope").unwrap_err().kind, UnicomErrorKind::NotFound);
    c.tags.push(("icon".to_string(), "star".to_string()));
    assert_eq!(c.get_tag("icon").unwrap(), "star");
    assert!(c.get_tag("other").is_none());
}
