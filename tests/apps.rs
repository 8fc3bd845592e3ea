use unicom::api::{EndPoint, EndPointKind, NodeConfig};
use unicom::app::{App, AppConfig, AppState, AppType};
use unicom::error::UnicomErrorKind;
use unicom::registry::Controller;
use unicom::supervisor::AppControler;

fn config(name: &str, after: Option<&str>) -> AppConfig {
    AppConfig {
        name: name.to_string(),
        kind: AppType::Python { venv: None },
        after: after.map(|a| a.to_string()),
        auto_reload: None,
    }
}

fn state_of(c: &Controller, name: &str) -> AppState {
    c.apps().status().into_iter().find(|(n, _)| n == name).unwrap().1
}

#[test]
fn start_is_idempotent_and_stop_too() {
    let mut a = App::new("/apps/demo", AppConfig {
        name: "demo".into(),
        kind: AppType::Python { venv: Some("/venv".into()) },
        after: None,
        auto_reload: Some(true),
    });
    assert!(a.auto_reload);
    assert_eq!(a.get_state(), AppState::Waiting);
    let cmd = a.start().unwrap();
    assert_eq!(cmd.program, "python-runtime");
    assert_eq!(cmd.args, vec!["/apps/demo".to_string(), "/venv".to_string()]);
    assert_eq!(a.get_state(), AppState::Started);
    assert!(a.start().is_none());
    a.set_running();
    assert!(a.start().is_none());
    assert_eq!(a.get_state(), AppState::Running);
    a.set_zombie();
    assert!(a.start().is_none());
    assert_eq!(a.get_state(), AppState::Zombie);
    a.attach(1234);
    assert_eq!(a.stop(), Some(1234));
    assert_eq!(a.get_state(), AppState::Stoped);
    assert_eq!(a.stop(), None);
    assert_eq!(a.get_state(), AppState::Stoped);
}

#[test]
fn after_dependency_startup() {
    let mut s = AppControler::new("/apps");
    s.load("/apps/base", config("base", None), false).unwrap();
    s.load("/apps/ui", config("ui", Some("base")), false).unwrap();
    let first = s.start_app(None);
    assert_eq!(first.len(), 1);
    assert_eq!(first[0].0, 0);
    let next = s.add_node("base");
    assert_eq!(next.len(), 1);
    assert_eq!(next[0].0, 1);
    let st = s.status();
    assert_eq!(st[0].1, AppState::Running);
    assert_eq!(st[1].1, AppState::Started);
}

#[test]
fn duplicate_app_is_refused() {
    let mut s = AppControler::new("/apps");
    s.load("/apps/a", config("a", None), false).unwrap();
    let e = s.load("/apps/a2", config("a", None), false).unwrap_err();
    assert_eq!(e.kind, UnicomErrorKind::ParameterInvalid);
    assert_eq!(s.stop("zz").unwrap_err().kind, UnicomErrorKind::NotFound);
    assert_eq!(s.app_dir("zz").unwrap_err().kind, UnicomErrorKind::NotFound);
    assert_eq!(s.app_dir("a").unwrap(), "/apps/a");
}

#[test]
fn app_lifecycle_follows_its_node() {
    let mut c = Controller::new("/apps");
    c.load_app("/apps/demo", config("demo", None), false).unwrap();
    let launches = c.start_apps();
    assert_eq!(launches.len(), 1);
    c.attach_app(launches[0].0, 99);
    assert_eq!(state_of(&c, "demo"), AppState::Started);
    let mut node = NodeConfig::new("demo");
    node.endpoints.push(EndPoint { regex: "/demo".into(), kind: EndPointKind::Rest { api: "x".into() } });
    c.new_node(node).unwrap();
    assert_eq!(state_of(&c, "demo"), AppState::Running);
    c.remove_node("demo").unwrap();
    assert_eq!(state_of(&c, "demo"), AppState::Zombie);
    assert_eq!(c.router().find("/demo").unwrap_err().kind, UnicomErrorKind::NotFound);
    let dir = c.app_dir("demo").unwrap();
    let out = c.load_app(&dir, config("demo", None), true).unwrap();
    assert_eq!(out.stopped, Some(99));
    assert!(out.launch.is_some());
    assert_eq!(state_of(&c, "demo"), AppState::Started);
}

#[test]
fn registry_names_are_unique() {
    let mut c = Controller::new("/apps");
    c.new_node(NodeConfig::new("a")).unwrap();
    let e = c.new_node(NodeConfig::new("a")).unwrap_err();
    assert_eq!(e.kind, UnicomErrorKind::ParameterInvalid);
    assert_eq!(c.remove_node("zz").unwrap_err().kind, UnicomErrorKind::NotFound);
    assert_eq!(c.node("zz").unwrap_err().kind, UnicomErrorKind::NotFound);
    assert_eq!(c.node("a").unwrap().name, "a");
}

#[test]
fn bad_endpoint_leaves_registry_unchanged() {
    let mut c = Controller::new("/apps");
    let mut node = NodeConfig::new("n");
    node.endpoints.push(EndPoint { regex: "(".into(), kind: EndPointKind::Rest { api: "x".into() } });
    assert_eq!(c.new_node(node).unwrap_err().kind, UnicomErrorKind::ParameterInvalid);
    assert!(c.get_node_name().is_empty());
}

#[test]
fn node_names_and_tags() {
    let mut c = Controller::new("/apps");
    let mut a = NodeConfig::new("a");
    a.tags.push(("menu".into(), "Home".into()));
    c.new_node(a).unwrap();
    c.new_node(NodeConfig::new("b")).unwrap();
    assert_eq!(c.get_node_name(), vec!["a".to_string(), "b".to_string()]);
    assert_eq!(c.get_node_tag("menu"), vec![("a".to_string(), "Home".to_string())]);
    let (quit, apps) = c.stop();
    assert_eq!(quit, vec!["b".to_string(), "a".to_string()]);
    assert!(apps.is_empty());
}

#[test]
fn registration_starts_only_dependents() {
    let mut s = AppControler::new("/apps");
    s.load("/apps/free", config("free", None), false).unwrap();
    s.load("/apps/dep", config("dep", Some("base")), false).unwrap();
    s.load("/apps/other", config("other", Some("x")), false).unwrap();
    s.start_app(None);
    s.stop("free").unwrap();
    let launches = s.add_node("base");
    assert_eq!(launches.len(), 1);
    assert_eq!(launches[0].0, 1);
    let st = s.status();
    assert_eq!(st[0].1, AppState::Stoped);
    assert_eq!(st[1].1, AppState::Started);
    assert_eq!(st[2].1, AppState::Waiting);
}

#[test]
fn failed_removal_changes_nothing() {
    let mut c = Controller::new("/apps");
    c.load_app("/apps/ghost", config("ghost", None), false).unwrap();
    c.start_apps();
    assert_eq!(c.remove_node("ghost").unwrap_err().kind, UnicomErrorKind::NotFound);
    assert_eq!(state_of(&c, "ghost"), AppState::Started);
}

#[test]
fn stop_and_attach_through_registry() {
    let mut c = Controller::new("/apps");
    c.load_app("/apps/a", config("a", None), false).unwrap();
    let l = c.start_apps();
    c.attach_app(l[0].0, 42);
    assert_eq!(c.stop_app("a").unwrap(), Some(42));
    assert_eq!(state_of(&c, "a"), AppState::Stoped);
    assert_eq!(c.stop_app("a").unwrap(), None);
    assert_eq!(c.stop_app("zz").unwrap_err().kind, UnicomErrorKind::NotFound);
}
