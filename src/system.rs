use vstd::prelude::*;

use crate::api::{Api, ApiMethod, MethodKind, NodeConfig, Parameter, ValueKind, str_eq};
use crate::codec::UnicomRequest;
use crate::error::{UnicomError, UnicomErrorKind};
use crate::value::{ParamValue, ParamView, params_view};

verus! {

/// What a request to the system node asks the hub to do.
#[derive(Debug)]
pub enum SystemAction {
    /// List node names, or `(name, value)` of the nodes with this tag.
    Nodes { tag: Option<String> },
    /// List applications with their states.
    Apps,
    /// Reload one application.
    Reload { name: String },
    /// Stop one application.
    Stop { name: String },
    /// Attach a user to a session; `input` holds the login form.
    Authenticate { session_id: String, input: ParamValue },
    /// The last lines of output of one application.
    AppLog { name: String },
    /// Update one application.
    Update { name: String },
    /// Nothing: the API is unknown; the answer is empty.
    Nothing,
}

/// The text of a parameter value, empty for anything but text.
pub open spec fn text_of(v: ParamView) -> Seq<char> {
    match v {
        ParamView::Text(s) => s,
        _ => Seq::empty(),
    }
}

/// The value bound to `key`, first binding first.
pub open spec fn lookup(p: Seq<(Seq<char>, ParamView)>, key: Seq<char>) -> Option<ParamView> {
    if exists|i: int| 0 <= i < p.len() && p[i].0 == key {
        let i = choose|i: int| 0 <= i < p.len() && p[i].0 == key && forall|j: int| 0 <= j < i ==> p[j].0 != key;
        Some(p[i].1)
    } else {
        None
    }
}

fn find_param<'a>(p: &'a Vec<(String, ParamValue)>, key: &str) -> (r: Option<&'a ParamValue>)
    ensures
        match r {
            Some(v) => lookup(params_view(p@), key@) == Some(v@),
            None => lookup(params_view(p@), key@) is None,
        },
{
    let ghost pv = params_view(p@);
    let mut i: usize = 0;
    while i < p.len()
        invariant
            pv == params_view(p@),
            0 <= i <= p@.len(),
            forall|j: int| 0 <= j < i ==> pv[j].0 != key@,
        decreases p@.len() - i,
    {
        if str_eq(p[i].0.as_str(), key) {
            proof {
                let c = choose|c: int| 0 <= c < pv.len() && pv[c].0 == key@ && forall|j: int| 0 <= j < c ==> pv[j].0 != key@;
                assert(c == i) by {
                    if c > i {
                        assert(pv[i as int].0 == key@);
                    }
                }
            }
            return Some(&p[i].1);
        }
        i = i + 1;
    }
    None
}

fn text_value(v: &ParamValue) -> (r: String)
    ensures
        r@ == text_of(v@),
{
    match v {
        ParamValue::Text(s) => s.clone(),
        _ => String::new(),
    }
}

/// A mandatory text parameter; `ParameterInvalid` when it is missing.
fn required_text(p: &Vec<(String, ParamValue)>, key: &str) -> (r: Result<String, UnicomError>)
    ensures
        match r {
            Ok(s) => lookup(params_view(p@), key@) matches Some(v) && s@ == text_of(v),
            Err(e) => lookup(params_view(p@), key@) is None && e.kind == UnicomErrorKind::ParameterInvalid,
        },
{
    match find_param(p, key) {
        Some(v) => Ok(text_value(v)),
        None => Err(UnicomError::new(UnicomErrorKind::ParameterInvalid, "missing parameter")),
    }
}

/// The action that a request to the system node asks for, by API name.
/// A missing mandatory parameter is `ParameterInvalid`.
pub fn system_action(req: &UnicomRequest) -> (r: Result<SystemAction, UnicomError>)
    ensures
        ({
            let p = params_view(req.parameters@);
            let n = req.name@;
            if n == "nodes"@ {
                r matches Ok(SystemAction::Nodes { tag }) && match lookup(p, "tag"@) {
                    Some(v) => tag matches Some(t) && t@ == text_of(v),
                    None => tag is None,
                }
            } else if n == "apps"@ {
                r matches Ok(SystemAction::Apps)
            } else if n == "app_reload"@ || n == "app_stop"@ || n == "app_log"@ || n == "app_update"@ {
                match lookup(p, "name"@) {
                    Some(v) => match r {
                        Ok(SystemAction::Reload { name }) => n == "app_reload"@ && name@ == text_of(v),
                        Ok(SystemAction::Stop { name }) => n == "app_stop"@ && name@ == text_of(v),
                        Ok(SystemAction::AppLog { name }) => n == "app_log"@ && name@ == text_of(v),
                        Ok(SystemAction::Update { name }) => n == "app_update"@ && name@ == text_of(v),
                        _ => false,
                    },
                    None => r is Err && r->Err_0.kind == UnicomErrorKind::ParameterInvalid,
                }
            } else if n == "authenticate"@ {
                match (lookup(p, "session_id"@), lookup(p, "input"@)) {
                    (Some(s), Some(i)) => r matches Ok(SystemAction::Authenticate { session_id, input })
                        && session_id@ == text_of(s) && input@ == i,
                    _ => r is Err && r->Err_0.kind == UnicomErrorKind::ParameterInvalid,
                }
            } else {
                r matches Ok(SystemAction::Nothing)
            }
        }),
{
    let p = &req.parameters;
    let n = req.name.as_str();
    if str_eq(n, "nodes") {
        let tag = match find_param(p, "tag") {
            Some(v) => Some(text_value(v)),
            None => None,
        };
        return Ok(SystemAction::Nodes { tag });
    }
    if str_eq(n, "apps") {
        return Ok(SystemAction::Apps);
    }
    if str_eq(n, "app_reload") {
        let name = required_text(p, "name")?;
        return Ok(SystemAction::Reload { name });
    }
    if str_eq(n, "app_stop") {
        let name = required_text(p, "name")?;
        return Ok(SystemAction::Stop { name });
    }
    if str_eq(n, "app_log") {
        let name = required_text(p, "name")?;
        return Ok(SystemAction::AppLog { name });
    }
    if str_eq(n, "app_update") {
        let name = required_text(p, "name")?;
        return Ok(SystemAction::Update { name });
    }
    if str_eq(n, "authenticate") {
        let session_id = required_text(p, "session_id")?;
        let input = match find_param(p, "input") {
            Some(v) => v.clone(),
            None => {
                return Err(UnicomError::new(UnicomErrorKind::ParameterInvalid, "missing parameter"));
            },
        };
        return Ok(SystemAction::Authenticate { session_id, input });
    }
    Ok(SystemAction::Nothing)
}

/// `a` has this id and name and one method: this verb with these
/// parameters (name, kind, mandatory), in order.
pub open spec fn api_is(a: Api, id: u64, name: Seq<char>, kind: MethodKind, params: Seq<(Seq<char>, ValueKind, bool)>) -> bool {
    &&& a.id == id
    &&& a.name@ == name
    &&& a.methods@.len() == 1
    &&& a.methods@[0].kind == kind
    &&& a.methods@[0].parameters@.len() == params.len()
    &&& forall|i: int|
        0 <= i < params.len() ==> {
            let p = #[trigger] a.methods@[0].parameters@[i];
            p.name@ == params[i].0 && p.kind == params[i].1 && p.mandatory == params[i].2
        }
}

fn one_method(kind: MethodKind, params: Vec<Parameter>) -> (r: Vec<ApiMethod>)
    ensures
        r@.len() == 1,
        r@[0].kind == kind,
        r@[0].parameters == params,
{
    let mut v: Vec<ApiMethod> = Vec::new();
    v.push(ApiMethod::new(kind, params));
    v
}

fn one_param(name: &str, kind: ValueKind, mandatory: bool) -> (r: Vec<Parameter>)
    ensures
        r@.len() == 1,
        r@[0].name@ == name@,
        r@[0].kind == kind,
        r@[0].mandatory == mandatory,
{
    let mut v: Vec<Parameter> = Vec::new();
    v.push(Parameter::new(name, kind, mandatory));
    v
}

/// The manifest of the system node: `base` (or an empty manifest called
/// `system`) with the hub's own APIs added after its own.
pub fn system_config(base: Option<NodeConfig>) -> (r: NodeConfig)
    ensures
        r.apis@.len() == match base {
            Some(b) => b.apis@.len(),
            None => 0,
        } + 7,
        base is None ==> r.name@ == "system"@,
        base matches Some(b) ==> r.name == b.name && r.apis@.subrange(0, b.apis@.len() as int)
            == b.apis@,
        ({
            let k = r.apis@.len() - 7;
            let text = ValueKind::Text;
            &&& api_is(r.apis@[k], 0, "nodes"@, MethodKind::GET, seq![("tag"@, text, false)])
            &&& api_is(r.apis@[k + 1], 1, "apps"@, MethodKind::GET, seq![])
            &&& api_is(r.apis@[k + 2], 2, "app_reload"@, MethodKind::GET, seq![("name"@, text, true)])
            &&& api_is(r.apis@[k + 3], 3, "app_stop"@, MethodKind::GET, seq![("name"@, text, true)])
            &&& api_is(
                r.apis@[k + 4],
                4,
                "authenticate"@,
                MethodKind::POST,
                seq![("session_id"@, ValueKind::SessionID, true), ("input"@, ValueKind::Input, true)],
            )
            &&& api_is(r.apis@[k + 5], 5, "app_log"@, MethodKind::GET, seq![("name"@, text, true)])
            &&& api_is(r.apis@[k + 6], 6, "app_update"@, MethodKind::GET, seq![("name"@, text, true)])
        }),
{
    let mut c = match base {
        Some(b) => b,
        None => NodeConfig::new("system"),
    };
    c.add_api(0, "nodes", one_method(MethodKind::GET, one_param("tag", ValueKind::Text, false)));
    c.add_api(1, "apps", one_method(MethodKind::GET, Vec::new()));
    c.add_api(2, "app_reload", one_method(MethodKind::GET, one_param("name", ValueKind::Text, true)));
    c.add_api(3, "app_stop", one_method(MethodKind::GET, one_param("name", ValueKind::Text, true)));
    let mut auth: Vec<Parameter> = Vec::new();
    auth.push(Parameter::new("session_id", ValueKind::SessionID, true));
    auth.push(Parameter::new("input", ValueKind::Input, true));
    c.add_api(4, "authenticate", one_method(MethodKind::POST, auth));
    c.add_api(5, "app_log", one_method(MethodKind::GET, one_param("name", ValueKind::Text, true)));
    c.add_api(6, "app_update", one_method(MethodKind::GET, one_param("name", ValueKind::Text, true)));
    c
}

} // verus!
