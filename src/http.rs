use vstd::prelude::*;

use crate::api::{ApiConfig, ApiMethod, MethodKind, Parameter, ValueKind, str_eq};
use crate::error::{UnicomError, UnicomErrorKind};
use crate::number::{float_text, is_float_text};
use crate::session::{Session, User, UserLevel, hex_digit};
use crate::text::{all_digits, digits_value, has_prefix, i64_of, parse_i64, parse_usize, split, split_at_char, starts_with};
use crate::value::{ParamValue, ParamView, insert_param, insert_param_value, keys_distinct, params_view};

verus! {

/// The value of a query parameter: an integer, else a float (kept as its
/// text), else the text itself.
pub open spec fn query_value(v: Seq<char>) -> ParamView {
    match i64_of(v) {
        Some(i) => ParamView::Int(i),
        None => if float_text(v) {
            ParamView::Number(v)
        } else {
            ParamView::Text(v)
        },
    }
}

/// The parameters that `key=value` pieces give, later keys replacing
/// earlier ones; a piece without exactly one `=` is skipped.
pub open spec fn query_pairs(pieces: Seq<Seq<char>>) -> Seq<(Seq<char>, ParamView)>
    decreases pieces.len(),
{
    if pieces.len() == 0 {
        seq![]
    } else {
        let acc = query_pairs(pieces.drop_last());
        let kv = split(pieces.last(), '=');
        if kv.len() == 2 {
            insert_param(acc, kv[0], query_value(kv[1]))
        } else {
            acc
        }
    }
}

/// The parameters of a query string: `;` between pairs, `=` inside them.
pub open spec fn query_params(query: Option<Seq<char>>) -> Seq<(Seq<char>, ParamView)> {
    match query {
        Some(q) => query_pairs(split(q, ';')),
        None => seq![],
    }
}

fn query_value_exec(v: String) -> (r: ParamValue)
    ensures
        r@ == query_value(v@),
{
    match parse_i64(v.as_str()) {
        Some(i) => ParamValue::Int(i),
        None => if is_float_text(v.as_str()) {
            ParamValue::Number(v)
        } else {
            ParamValue::Text(v)
        },
    }
}

/// Parses the query string of a request into named parameters.
pub fn parse_parameters(query: Option<&str>) -> (r: Vec<(String, ParamValue)>)
    ensures
        params_view(r@) == query_params(opt_text(query)),
        keys_distinct(params_view(r@)),
{
    let mut out: Vec<(String, ParamValue)> = Vec::new();
    let q = match query {
        Some(q) => q,
        None => {
            proof {
                assert(params_view(out@) =~= Seq::<(Seq<char>, ParamView)>::empty());
            }
            return out;
        },
    };
    let pieces = split_at_char(q, ';');
    let ghost pv = pieces@.map_values(|p: String| p@);
    let mut i: usize = 0;
    proof {
        assert(pv.subrange(0, 0) =~= Seq::<Seq<char>>::empty());
        assert(params_view(out@) =~= Seq::<(Seq<char>, ParamView)>::empty());
    }
    while i < pieces.len()
        invariant
            pv == pieces@.map_values(|p: String| p@),
            pv == split(q@, ';'),
            0 <= i <= pieces@.len(),
            params_view(out@) == query_pairs(pv.subrange(0, i as int)),
            keys_distinct(params_view(out@)),
        decreases pieces@.len() - i,
    {
        let kv = split_at_char(pieces[i].as_str(), '=');
        proof {
            assert(pv.subrange(0, i + 1).drop_last() =~= pv.subrange(0, i as int));
            assert(pv.subrange(0, i + 1).last() == pieces@[i as int]@);
        }
        if kv.len() == 2 {
            proof {
                assert(kv@[0]@ == split(pieces@[i as int]@, '=')[0]);
                assert(kv@[1]@ == split(pieces@[i as int]@, '=')[1]);
            }
            let key = kv[0].clone();
            let value = query_value_exec(kv[1].clone());
            insert_param_value(&mut out, key, value);
        }
        i = i + 1;
    }
    proof {
        assert(pv.subrange(0, pieces@.len() as int) =~= pv);
    }
    out
}

pub open spec fn opt_text(o: Option<&str>) -> Option<Seq<char>> {
    match o {
        Some(s) => Some(s@),
        None => None,
    }
}

/// What the body of a request turns into.
#[derive(Debug, Clone, Copy, PartialEq, Eq, Structural)]
pub enum BodyKind {
    /// No body, or an empty one.
    Absent,
    /// A JSON document handed over as it is.
    Json,
    /// Anything else, stored in a temporary file whose path is handed over.
    File,
}

/// How to treat a request body, from its `Content-Length` and
/// `Content-Type`; a length that is no number is `InputInvalid`.
pub fn body_kind(content_length: Option<&str>, content_type: Option<&str>) -> (r: Result<BodyKind, UnicomError>)
    ensures
        match content_length {
            None => r == Ok::<BodyKind, UnicomError>(BodyKind::Absent),
            Some(l) => if !all_digits(l@) || digits_value(l@) > usize::MAX {
                r is Err && r->Err_0.kind == UnicomErrorKind::InputInvalid
            } else if digits_value(l@) == 0 {
                r == Ok::<BodyKind, UnicomError>(BodyKind::Absent)
            } else if content_type matches Some(t) && has_prefix(t@, "application/json"@) {
                r == Ok::<BodyKind, UnicomError>(BodyKind::Json)
            } else {
                r == Ok::<BodyKind, UnicomError>(BodyKind::File)
            },
        },
{
    let l = match content_length {
        Some(l) => l,
        None => return Ok(BodyKind::Absent),
    };
    let n = match parse_usize(l) {
        Some(n) => n,
        None => return Err(UnicomError::new(UnicomErrorKind::InputInvalid, "bad content length")),
    };
    if n == 0 {
        return Ok(BodyKind::Absent);
    }
    match content_type {
        Some(t) => if starts_with(t, "application/json") {
            Ok(BodyKind::Json)
        } else {
            Ok(BodyKind::File)
        },
        None => Ok(BodyKind::File),
    }
}

/// The file that a static route serves, as (root, path under it): the
/// first capture under the route's root when the route has one group, the
/// root itself otherwise.
pub fn static_target(root: &str, url: &Vec<String>) -> (r: (String, String))
    ensures
        url@.len() == 2 ==> r.0@ == root@ && r.1@ == url@[1]@,
        url@.len() != 2 ==> r.0@ == "/"@ && r.1@ == root@,
{
    if url.len() == 2 {
        (root.to_owned(), url[1].clone())
    } else {
        (String::from_str("/"), root.to_owned())
    }
}

/// The compact JSON text of the one JSON document that the bytes hold, if
/// they hold one.
pub uninterp spec fn json_document_text(b: Seq<u8>) -> Option<Seq<char>>;

/// Relies on `serde_json::from_slice` into a `serde_json::Value` and on
/// `Value`'s `Display`: whether the bytes are one JSON document, and its
/// compact text, depend on the bytes alone.
#[verifier::external_body]
fn json_document(b: &[u8]) -> (r: Option<String>)
    ensures
        match r {
            Some(t) => json_document_text(b@) == Some(t@),
            None => json_document_text(b@) is None,
        },
{
    serde_json::from_slice::<serde_json::Value>(b).ok().map(|v| v.to_string())
}

/// The body of a JSON request as compact JSON text; `InputInvalid` when it
/// is no JSON document.
pub fn json_body(b: &[u8]) -> (r: Result<String, UnicomError>)
    ensures
        match r {
            Ok(t) => json_document_text(b@) == Some(t@),
            Err(e) => e.kind == UnicomErrorKind::InputInvalid && json_document_text(b@) is None,
        },
{
    match json_document(b) {
        Some(t) => Ok(t),
        None => Err(UnicomError::new(UnicomErrorKind::InputInvalid, "body is no JSON document")),
    }
}

/// The verb of an HTTP method name; `NotFound` for any other.
pub fn method_kind(name: &str) -> (r: Result<MethodKind, UnicomError>)
    ensures
        name@ == "GET"@ ==> r == Ok::<MethodKind, UnicomError>(MethodKind::GET),
        name@ == "POST"@ ==> r == Ok::<MethodKind, UnicomError>(MethodKind::POST),
        name@ == "PUT"@ ==> r == Ok::<MethodKind, UnicomError>(MethodKind::PUT),
        name@ == "DELETE"@ ==> r == Ok::<MethodKind, UnicomError>(MethodKind::DELETE),
        !(name@ == "GET"@ || name@ == "POST"@ || name@ == "PUT"@ || name@ == "DELETE"@) ==> r is Err
            && r->Err_0.kind == UnicomErrorKind::NotFound,
{
    proof {
        reveal_strlit("GET");
        reveal_strlit("POST");
        reveal_strlit("PUT");
        reveal_strlit("DELETE");
        assert("POST"@ != "GET"@) by {
            assert("POST"@.len() != "GET"@.len());
        }
        assert("PUT"@ != "GET"@) by {
            assert("PUT"@[0] != "GET"@[0]);
        }
        assert("PUT"@ != "POST"@) by {
            assert("PUT"@.len() != "POST"@.len());
        }
        assert("DELETE"@ != "GET"@ && "DELETE"@ != "POST"@ && "DELETE"@ != "PUT"@) by {
            assert("DELETE"@.len() == 6);
        }
    }
    if str_eq(name, "GET") {
        Ok(MethodKind::GET)
    } else if str_eq(name, "POST") {
        Ok(MethodKind::POST)
    } else if str_eq(name, "PUT") {
        Ok(MethodKind::PUT)
    } else if str_eq(name, "DELETE") {
        Ok(MethodKind::DELETE)
    } else {
        Err(UnicomError::new(UnicomErrorKind::NotFound, "method not found"))
    }
}

// ---------------------------------------------------------------- binding

/// How serde_json writes one character inside a JSON string: `"` and `\`
/// escaped, the short escapes for backspace, tab, newline, form feed and
/// carriage return, `\u00xx` (lower-case hex) for the other control
/// characters below U+0020, any other character as it is.
pub open spec fn json_escape(c: char) -> Seq<char> {
    let u = c as u32;
    if c == '"' {
        seq!['\\', '"']
    } else if c == '\\' {
        seq!['\\', '\\']
    } else if u == 8 {
        seq!['\\', 'b']
    } else if u == 9 {
        seq!['\\', 't']
    } else if u == 10 {
        seq!['\\', 'n']
    } else if u == 12 {
        seq!['\\', 'f']
    } else if u == 13 {
        seq!['\\', 'r']
    } else if u < 32 {
        seq!['\\', 'u', '0', '0', hex_digit((u / 16) as nat), hex_digit((u % 16) as nat)]
    } else {
        seq![c]
    }
}

pub open spec fn json_escaped(s: Seq<char>) -> Seq<char>
    decreases s.len(),
{
    if s.len() == 0 {
        Seq::empty()
    } else {
        json_escaped(s.drop_last()) + json_escape(s.last())
    }
}

/// The JSON text of a string: quoted, each character escaped.
pub open spec fn json_string_text(s: Seq<char>) -> Seq<char> {
    seq!['"'] + json_escaped(s) + seq!['"']
}

/// Relies on `serde_json::to_string` for a string: it writes the string
/// quoted, each character through its escape table (`ESCAPE` in `ser.rs`),
/// and serialising a `str` into a `Vec` cannot fail.
#[verifier::external_body]
fn json_string(s: &str) -> (r: String)
    ensures
        r@ == json_string_text(s@),
{
    serde_json::to_string(s).unwrap()
}

pub open spec fn level_text(l: UserLevel) -> Seq<char> {
    match l {
        UserLevel::Admin => "Admin"@,
        UserLevel::Root => "Root"@,
        UserLevel::Normal => "Normal"@,
    }
}

/// The JSON text of a user: `{"name":…,"level":"…"}`.
pub open spec fn user_json_text(u: User) -> Seq<char> {
    "{\"name\":"@ + json_string_text(u.name@) + ",\"level\":\""@ + level_text(u.level) + "\"}"@
}

/// The JSON text of a user record.
pub fn user_json(u: &User) -> (r: String)
    ensures
        r@ == user_json_text(*u),
{
    let mut s = String::from_str("{\"name\":");
    let n = json_string(u.name.as_str());
    s.append(n.as_str());
    s.append(",\"level\":\"");
    match u.level {
        UserLevel::Admin => s.append("Admin"),
        UserLevel::Root => s.append("Root"),
        UserLevel::Normal => s.append("Normal"),
    }
    s.append("\"}");
    s
}

/// The parameter value for the user of a session: its JSON, or null.
pub open spec fn user_value(u: Option<User>) -> ParamView {
    match u {
        Some(x) => ParamView::Json(user_json_text(x)),
        None => ParamView::Null,
    }
}

/// One declared parameter bound from the request context.
pub open spec fn bind_one(p: Seq<(Seq<char>, ParamView)>, d: Parameter, url: Seq<Seq<char>>, sid: Seq<char>, user: ParamView) -> Seq<(Seq<char>, ParamView)> {
    match d.kind {
        ValueKind::Url(i) => if i < url.len() && url[i as int].len() > 0 {
            insert_param(p, d.name@, ParamView::Text(url[i as int]))
        } else {
            p
        },
        ValueKind::SessionID => insert_param(p, d.name@, ParamView::Text(sid)),
        ValueKind::User => insert_param(p, d.name@, user),
        _ => p,
    }
}

pub open spec fn bind_all(p: Seq<(Seq<char>, ParamView)>, ds: Seq<Parameter>, url: Seq<Seq<char>>, sid: Seq<char>, user: ParamView) -> Seq<(Seq<char>, ParamView)>
    decreases ds.len(),
{
    if ds.len() == 0 {
        p
    } else {
        bind_one(bind_all(p, ds.drop_last(), url, sid, user), ds.last(), url, sid, user)
    }
}

/// Name of the last parameter that takes the request body.
pub open spec fn input_name(ds: Seq<Parameter>) -> Option<Seq<char>>
    decreases ds.len(),
{
    if ds.len() == 0 {
        None
    } else if ds.last().kind == ValueKind::Input {
        Some(ds.last().name@)
    } else {
        input_name(ds.drop_last())
    }
}

/// The parameters of an RPC once bound: URL captures, session id, user,
/// and the body (or null) under the input parameter.
pub open spec fn bound_params(p: Seq<(Seq<char>, ParamView)>, ds: Seq<Parameter>, url: Seq<Seq<char>>, sid: Seq<char>, user: ParamView, input: ParamView) -> Seq<(Seq<char>, ParamView)> {
    let b = bind_all(p, ds, url, sid, user);
    match input_name(ds) {
        Some(n) => insert_param(b, n, input),
        None => b,
    }
}

pub open spec fn input_value(input: Option<String>) -> ParamView {
    match input {
        Some(t) => ParamView::Json(t@),
        None => ParamView::Null,
    }
}

/// Binds the declared parameters of `api` that come from the request
/// context: `Url(i)` from the non-empty capture `i`, the session id, the
/// session's user, and the body (JSON text, or null) for `Input`.
pub fn add_http(api: &ApiMethod, parameters: &mut Vec<(String, ParamValue)>, url: &Vec<String>, session: &Session, input: Option<String>)
    requires
        keys_distinct(params_view(old(parameters)@)),
    ensures
        keys_distinct(params_view(final(parameters)@)),
        params_view(final(parameters)@) == bound_params(
            params_view(old(parameters)@),
            api.parameters@,
            url@.map_values(|u: String| u@),
            session.id@,
            user_value(session.user),
            input_value(input),
        ),
{
    let ghost uv = url@.map_values(|u: String| u@);
    let ghost user = user_value(session.user);
    let ghost ds = api.parameters@;
    let ghost start_params = params_view(parameters@);
    let mut input_param: Option<String> = None;
    let mut i: usize = 0;
    proof {
        assert(ds.subrange(0, 0) =~= Seq::<Parameter>::empty());
    }
    while i < api.parameters.len()
        invariant
            ds == api.parameters@,
            uv == url@.map_values(|u: String| u@),
            user == user_value(session.user),
            0 <= i <= ds.len(),
            keys_distinct(params_view(parameters@)),
            params_view(parameters@) == bind_all(start_params, ds.subrange(0, i as int), uv, session.id@, user),
            match input_param {
                Some(n) => input_name(ds.subrange(0, i as int)) == Some(n@),
                None => input_name(ds.subrange(0, i as int)) is None,
            },
        decreases ds.len() - i,
    {
        let d = &api.parameters[i];
        proof {
            assert(ds.subrange(0, i + 1).drop_last() =~= ds.subrange(0, i as int));
            assert(ds.subrange(0, i + 1).last() == *d);
        }
        match d.kind {
            ValueKind::Url(index) => {
                if index < url.len() && url[index].unicode_len() > 0 {
                    proof {
                        assert(uv[index as int] == url@[index as int]@);
                    }
                    insert_param_value(parameters, d.name.clone(), ParamValue::Text(url[index].clone()));
                } else {
                    proof {
                        assert(index < url@.len() ==> uv[index as int] == url@[index as int]@);
                    }
                }
            },
            ValueKind::Input => {
                input_param = Some(d.name.clone());
            },
            ValueKind::SessionID => {
                insert_param_value(parameters, d.name.clone(), ParamValue::Text(session.id.clone()));
            },
            ValueKind::User => {
                let v = match &session.user {
                    Some(u) => ParamValue::Json(user_json(u)),
                    None => ParamValue::Null,
                };
                insert_param_value(parameters, d.name.clone(), v);
            },
            _ => {},
        }
        i = i + 1;
    }
    proof {
        assert(ds.subrange(0, ds.len() as int) =~= ds);
    }
    match input_param {
        Some(n) => {
            let v = match input {
                Some(t) => ParamValue::Json(t),
                None => ParamValue::Null,
            };
            insert_param_value(parameters, n, v);
        },
        None => {},
    }
}

// ---------------------------------------------------------------- views

/// One RPC of a view: the slot it fills and the call to make.
#[derive(Debug)]
pub struct ViewCall {
    pub slot: String,
    pub node: String,
    pub api: String,
    pub method: MethodKind,
    pub parameters: Vec<(String, ParamValue)>,
}

/// Parameters laid over others, each replacing a binding of its key.
pub open spec fn overlay(p: Seq<(Seq<char>, ParamView)>, extra: Seq<(Seq<char>, ParamView)>) -> Seq<(Seq<char>, ParamView)>
    decreases extra.len(),
{
    if extra.len() == 0 {
        p
    } else {
        insert_param(overlay(p, extra.drop_last()), extra.last().0, extra.last().1)
    }
}

fn copy_params(p: &Vec<(String, ParamValue)>) -> (r: Vec<(String, ParamValue)>)
    ensures
        r@ == p@,
{
    let mut out: Vec<(String, ParamValue)> = Vec::new();
    let mut i: usize = 0;
    while i < p.len()
        invariant
            0 <= i <= p@.len(),
            out@ == p@.subrange(0, i as int),
        decreases p@.len() - i,
    {
        out.push((p[i].0.clone(), p[i].1.clone()));
        proof {
            assert(out@ =~= p@.subrange(0, i + 1));
        }
        i = i + 1;
    }
    proof {
        assert(out@ =~= p@);
    }
    out
}

/// The parameters of one slot: the query, overlaid with the slot's extras.
pub fn slot_parameters(query: &Vec<(String, ParamValue)>, extra: &Option<Vec<(String, ParamValue)>>) -> (r: Vec<(String, ParamValue)>)
    requires
        keys_distinct(params_view(query@)),
    ensures
        keys_distinct(params_view(r@)),
        params_view(r@) == match extra {
            Some(e) => overlay(params_view(query@), params_view(e@)),
            None => params_view(query@),
        },
{
    let mut out = copy_params(query);
    match extra {
        Some(e) => {
            let ghost ev = params_view(e@);
            let mut i: usize = 0;
            proof {
                assert(ev.subrange(0, 0) =~= Seq::<(Seq<char>, ParamView)>::empty());
            }
            while i < e.len()
                invariant
                    ev == params_view(e@),
                    0 <= i <= e@.len(),
                    keys_distinct(params_view(out@)),
                    params_view(out@) == overlay(params_view(query@), ev.subrange(0, i as int)),
                decreases e@.len() - i,
            {
                proof {
                    assert(ev.subrange(0, i + 1).drop_last() =~= ev.subrange(0, i as int));
                }
                insert_param_value(&mut out, e[i].0.clone(), e[i].1.clone());
                i = i + 1;
            }
            proof {
                assert(ev.subrange(0, e@.len() as int) =~= ev);
            }
        },
        None => {},
    }
    out
}

/// The RPCs of a view, one per slot in order: the slot's node and API, its
/// verb or else the request's, and the query overlaid with its extras.
pub fn view_calls(apis: &Vec<(String, ApiConfig)>, method: MethodKind, query: &Vec<(String, ParamValue)>) -> (r: Vec<ViewCall>)
    requires
        keys_distinct(params_view(query@)),
    ensures
        r@.len() == apis@.len(),
        forall|i: int|
            0 <= i < r@.len() ==> {
                let (c, a) = (#[trigger] r@[i], apis@[i]);
                &&& c.slot@ == a.0@
                &&& c.node@ == a.1.node@
                &&& c.api@ == a.1.api@
                &&& c.method == match a.1.method {
                    Some(m) => m,
                    None => method,
                }
                &&& params_view(c.parameters@) == match a.1.parameters {
                    Some(e) => overlay(params_view(query@), params_view(e@)),
                    None => params_view(query@),
                }
                &&& keys_distinct(params_view(c.parameters@))
            },
{
    let mut out: Vec<ViewCall> = Vec::new();
    let mut i: usize = 0;
    while i < apis.len()
        invariant
            keys_distinct(params_view(query@)),
            0 <= i <= apis@.len(),
            out@.len() == i,
            forall|j: int|
                0 <= j < i ==> {
                    let (c, a) = (#[trigger] out@[j], apis@[j]);
                    &&& c.slot@ == a.0@
                    &&& c.node@ == a.1.node@
                    &&& c.api@ == a.1.api@
                    &&& c.method == match a.1.method {
                        Some(m) => m,
                        None => method,
                    }
                    &&& params_view(c.parameters@) == match a.1.parameters {
                        Some(e) => overlay(params_view(query@), params_view(e@)),
                        None => params_view(query@),
                    }
                    &&& keys_distinct(params_view(c.parameters@))
                },
        decreases apis@.len() - i,
    {
        let cfg = &apis[i].1;
        let m = match cfg.method {
            Some(m) => m,
            None => method,
        };
        let params = slot_parameters(query, &cfg.parameters);
        out.push(ViewCall { slot: apis[i].0.clone(), node: cfg.node.clone(), api: cfg.api.clone(), method: m, parameters: params });
        i = i + 1;
    }
    out
}

} // verus!
