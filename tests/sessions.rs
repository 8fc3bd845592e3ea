use unicom::error::UnicomErrorKind;
use unicom::session::{Account, Session, SessionJson, SessionManager, User, UserLevel, SESSION_LIFETIME};

const NOW: i64 = 1_700_000_000;

#[test]
fn fresh_session_id_is_hex() {
    let mut m = SessionManager::new("/tmp/sessions.json");
    let s = m.create_with(0xbeef, NOW);
    assert_eq!(s.id, "beef");
    assert_eq!(s.expire, NOW + SESSION_LIFETIME);
    assert!(s.user.is_none());
    let z = m.create_with(0, NOW);
    assert_eq!(z.id, "0");
}

#[test]
fn cookie_text() {
    let s = Session { id: "ab".into(), user: None, expire: 0 };
    assert_eq!(s.gen_cookies(), "sessionID=ab; Expires=Thu, 1 Jan 1970 00:00:00 +0000; SameSite=Strict");
}

#[test]
fn session_reuse_by_cookie() {
    let mut m = SessionManager::new("/tmp/s.json");
    assert!(m.parse_session(None, NOW).is_none());
    let s = m.create(NOW);
    let cookie = format!("other=1; sessionID={}", s.id);
    let again = m.parse_session(Some(&cookie), NOW + 10).unwrap();
    assert_eq!(again.id, s.id);
    assert!(m.parse_session(Some("sessionID=zz"), NOW).is_none());
}

#[test]
fn lookup_evicts_expired_sessions() {
    let mut m = SessionManager::new("/tmp/s.json");
    m.create_with(1, NOW);
    m.create_with(2, NOW + 100);
    m.create_with(3, NOW + 200);
    // at this time the first session has expired, the others not
    let later = NOW + SESSION_LIFETIME + 50;
    assert!(m.get("1", later).is_none());
    let found = m.get("3", later).unwrap();
    assert_eq!(found.id, "3");
    let ids: Vec<String> = m.to_json_all().into_iter().map(|j| j.id).collect();
    assert_eq!(ids, vec!["2".to_string(), "3".to_string()]);
}

#[test]
fn session_expiring_now_is_kept() {
    let mut m = SessionManager::new("/tmp/s.json");
    let s = m.create_with(7, NOW);
    assert!(m.get("7", s.expire).is_some());
    assert!(m.get("7", s.expire + 1).is_none());
    assert!(m.to_json_all().is_empty());
}

#[test]
fn json_round_trip() {
    let j = SessionJson {
        id: "c0ffee".into(),
        user: Some(User { name: "bob".into(), level: UserLevel::Admin }),
        expire: "Tue, 14 Nov 2023 22:13:20 +0000".into(),
    };
    let s = Session::from_json(SessionJson { id: j.id.clone(), user: j.user.clone(), expire: j.expire.clone() }).unwrap();
    assert_eq!(s.expire, NOW);
    let back = s.to_json();
    assert_eq!(back.id, j.id);
    assert_eq!(back.expire, j.expire);
    assert_eq!(back.user.unwrap().name, "bob");
    let direct = Session { id: "x".into(), user: None, expire: NOW }.to_json();
    assert_eq!(direct.expire, j.expire);
}

#[test]
fn bad_date_is_refused() {
    let j = SessionJson { id: "1".into(), user: None, expire: "yesterday".into() };
    assert_eq!(Session::from_json(j).unwrap_err().kind, UnicomErrorKind::Encoding);
}

#[test]
fn load_restores_in_reverse_after_fresh() {
    let mut m = SessionManager::new("/tmp/s.json");
    let date = Session { id: String::new(), user: None, expire: NOW }.to_json().expire;
    let data = vec![
        SessionJson { id: "a".into(), user: None, expire: date.clone() },
        SessionJson { id: "b".into(), user: None, expire: date },
    ];
    m.load(data, NOW).unwrap();
    let ids: Vec<String> = m.to_json_all().into_iter().map(|j| j.id).collect();
    assert_eq!(ids.len(), 3);
    assert_eq!(ids[1], "b");
    assert_eq!(ids[2], "a");
}

#[test]
fn authentication_outcomes() {
    let mut m = SessionManager::new("/tmp/s.json");
    let s = m.create_with(0xab, NOW);
    let e = m.authentication("ff", "bob", "pw", None, NOW).unwrap_err();
    assert_eq!(e.kind, UnicomErrorKind::ParameterInvalid);
    let e = m.authentication(&s.id, "bob", "pw", None, NOW).unwrap_err();
    assert_eq!(e.kind, UnicomErrorKind::NotAllowed);
    // a DES hash of "test", from pwhash's own examples
    let acc = Account { hash: "aZGJuE6EXrjEE".into(), groups: vec!["users".into(), "sudo".into()] };
    let e = m.authentication(&s.id, "bob", "wrong", Some(&acc), NOW).unwrap_err();
    assert_eq!(e.kind, UnicomErrorKind::NotAllowed);
    m.authentication(&s.id, "bob", "test", Some(&acc), NOW).unwrap();
    let u = m.get(&s.id, NOW).unwrap().get_user().unwrap();
    assert_eq!(u.name, "bob");
    assert_eq!(u.level, UserLevel::Admin);
    let plain = Account { hash: "aZGJuE6EXrjEE".into(), groups: vec![] };
    m.authentication(&s.id, "eve", "test", Some(&plain), NOW).unwrap();
    assert_eq!(m.get(&s.id, NOW).unwrap().user.unwrap().level, UserLevel::Normal);
    m.authentication(&s.id, "", "", None, NOW).unwrap();
    assert!(m.get(&s.id, NOW).unwrap().user.is_none());
}

#[test]
fn find_or_create_sets_cookie_once() {
    let mut m = SessionManager::new("/tmp/s.json");
    let (first, cookie) = m.find_or_create(None, NOW);
    let cookie = cookie.unwrap();
    assert!(cookie.starts_with(&format!("sessionID={}; Expires=", first.id)));
    assert!(cookie.ends_with("; SameSite=Strict"));
    let header = cookie.split(';').next().unwrap().to_string();
    let (second, again) = m.find_or_create(Some(&header), NOW + 1);
    assert!(again.is_none());
    assert_eq!(second.id, first.id);
}

#[test]
fn unprintable_hash_is_not_allowed() {
    let mut m = SessionManager::new("/tmp/s.json");
    let s = m.create_with(0xcd, NOW);
    let acc = Account { hash: "a\u{1}GJuE6EXrjEE".into(), groups: vec![] };
    let e = m.authentication(&s.id, "bob", "test", Some(&acc), NOW).unwrap_err();
    assert_eq!(e.kind, UnicomErrorKind::NotAllowed);
    let wide = Account { hash: "a\u{80}GJuE6EXrjEE".into(), groups: vec![] };
    let e = m.authentication(&s.id, "bob", "test", Some(&wide), NOW).unwrap_err();
    assert_eq!(e.kind, UnicomErrorKind::NotAllowed);
}

#[test]
fn first_live_offered_id_wins() {
    let mut m = SessionManager::new("/tmp/s.json");
    m.create_with(0xa, NOW - SESSION_LIFETIME - 100);
    m.create_with(0xb, NOW);
    m.create_with(0xc, NOW);
    let cookie = "sessionID=a; sessionID=ff; sessionID=c; sessionID=b";
    let s = m.parse_session(Some(cookie), NOW).unwrap();
    assert_eq!(s.id, "c");
    let (again, set) = m.find_or_create(Some("sessionID=b"), NOW);
    assert!(set.is_none());
    assert_eq!(again.id, "b");
    assert_eq!(m.to_json_all().len(), 2);
}
