use vstd::prelude::*;

use crate::error::{UnicomError, UnicomErrorKind};
use crate::value::ParamValue;

verus! {

/// HTTP verb under which an API method is served.
#[derive(Debug, Clone, Copy, PartialEq, Eq, Structural)]
pub enum MethodKind {
    GET,
    POST,
    PUT,
    DELETE,
}

/// Where the value of a declared parameter comes from.
#[derive(Debug, Clone, Copy, PartialEq, Eq, Structural)]
pub enum ValueKind {
    Text,
    Int,
    Float,
    Bool,
    /// The URL capture group with this index.
    Url(usize),
    /// The parsed request body.
    Input,
    /// The id of the caller's session.
    SessionID,
    /// The user attached to the caller's session.
    User,
}

#[derive(Debug)]
pub struct Parameter {
    pub name: String,
    pub kind: ValueKind,
    pub mandatory: bool,
}

impl Clone for Parameter {
    fn clone(&self) -> (r: Parameter)
        ensures
            r == *self,
    {
        Parameter { name: self.name.clone(), kind: self.kind, mandatory: self.mandatory }
    }
}

impl Parameter {
    pub fn new(name: &str, kind: ValueKind, mandatory: bool) -> (r: Parameter)
        ensures
            r.name@ == name@,
            r.kind == kind,
            r.mandatory == mandatory,
    {
        Parameter { name: name.to_owned(), kind, mandatory }
    }
}

/// One verb of an API, with its ordered parameter list.
#[derive(Debug)]
pub struct ApiMethod {
    pub kind: MethodKind,
    pub parameters: Vec<Parameter>,
}

impl ApiMethod {
    pub fn new(kind: MethodKind, parameters: Vec<Parameter>) -> (r: ApiMethod)
        ensures
            r.kind == kind,
            r.parameters == parameters,
    {
        ApiMethod { kind, parameters }
    }
}

/// A named bundle of per-verb methods.
#[derive(Debug)]
pub struct Api {
    pub id: u64,
    pub name: String,
    pub methods: Vec<ApiMethod>,
}

impl Api {
    /// The first method declared for `kind`; `NotFound` when the verb is missing.
    pub fn get_method(&self, kind: MethodKind) -> (r: Result<&ApiMethod, UnicomError>)
        ensures
            match r {
                Ok(m) => exists|i: int|
                    0 <= i < self.methods@.len() && self.methods@[i] == *m && m.kind == kind
                        && forall|j: int| 0 <= j < i ==> self.methods@[j].kind != kind,
                Err(e) => e.kind == UnicomErrorKind::NotFound
                    && forall|j: int| 0 <= j < self.methods@.len() ==> self.methods@[j].kind != kind,
            },
    {
        let mut i: usize = 0;
        while i < self.methods.len()
            invariant
                0 <= i <= self.methods@.len(),
                forall|j: int| 0 <= j < i ==> self.methods@[j].kind != kind,
            decreases self.methods@.len() - i,
        {
            if self.methods[i].kind == kind {
                return Ok(&self.methods[i]);
            }
            i = i + 1;
        }
        Err(UnicomError::new(UnicomErrorKind::NotFound, "method not found"))
    }
}

/// Parameters of one slot of a view: the node and API to call, the verb
/// (the request's own when absent) and extra parameters laid over the query.
#[derive(Debug)]
pub struct ApiConfig {
    pub node: String,
    pub api: String,
    pub method: Option<MethodKind>,
    pub parameters: Option<Vec<(String, ParamValue)>>,
}

/// What an endpoint does with a matching request.
#[derive(Debug)]
pub enum EndPointKind {
    /// Serve files under `path`.
    Static { path: String },
    /// Serve the file whose path the API returns.
    Dynamic { api: String },
    /// Return the API's reply as JSON.
    Rest { api: String },
    /// Call several APIs and render their results through a template.
    View { template: String, apis: Vec<(String, ApiConfig)> },
}

#[derive(Debug)]
pub struct EndPoint {
    pub regex: String,
    pub kind: EndPointKind,
}

#[derive(Debug)]
pub struct Template {
    pub path: String,
    pub file: String,
}

/// The manifest that a node declares when it connects.
#[derive(Debug)]
pub struct NodeConfig {
    pub name: String,
    pub apis: Vec<Api>,
    pub endpoints: Vec<EndPoint>,
    pub templates: Vec<Template>,
    pub tags: Vec<(String, String)>,
}

impl NodeConfig {
    /// An empty manifest for a node called `name`.
    pub fn new(name: &str) -> (r: NodeConfig)
        ensures
            r.name@ == name@,
            r.apis@.len() == 0,
            r.endpoints@.len() == 0,
            r.templates@.len() == 0,
            r.tags@.len() == 0,
    {
        NodeConfig {
            name: name.to_owned(),
            apis: Vec::new(),
            endpoints: Vec::new(),
            templates: Vec::new(),
            tags: Vec::new(),
        }
    }

    /// Declares one more API.
    pub fn add_api(&mut self, id: u64, name: &str, methods: Vec<ApiMethod>)
        ensures
            final(self).name == old(self).name,
            final(self).endpoints == old(self).endpoints,
            final(self).templates == old(self).templates,
            final(self).tags == old(self).tags,
            final(self).apis@.len() == old(self).apis@.len() + 1,
            final(self).apis@.subrange(0, old(self).apis@.len() as int) == old(self).apis@,
            final(self).apis@.last().id == id,
            final(self).apis@.last().name@ == name@,
            final(self).apis@.last().methods == methods,
    {
        self.apis.push(Api { id, name: name.to_owned(), methods });
        proof {
            assert(self.apis@.subrange(0, old(self).apis@.len() as int) =~= old(self).apis@);
        }
    }

    /// The first API declared under `name`; `NotFound` when there is none.
    pub fn api(&self, name: &str) -> (r: Result<&Api, UnicomError>)
        ensures
            match r {
                Ok(a) => exists|i: int|
                    0 <= i < self.apis@.len() && self.apis@[i] == *a && a.name@ == name@
                        && forall|j: int| 0 <= j < i ==> self.apis@[j].name@ != name@,
                Err(e) => e.kind == UnicomErrorKind::NotFound
                    && forall|j: int| 0 <= j < self.apis@.len() ==> self.apis@[j].name@ != name@,
            },
    {
        let mut i: usize = 0;
        while i < self.apis.len()
            invariant
                0 <= i <= self.apis@.len(),
                forall|j: int| 0 <= j < i ==> self.apis@[j].name@ != name@,
            decreases self.apis@.len() - i,
        {
            if str_eq(self.apis[i].name.as_str(), name) {
                return Ok(&self.apis[i]);
            }
            i = i + 1;
        }
        Err(UnicomError::new(UnicomErrorKind::NotFound, "api not found"))
    }

    /// The value of the first tag called `tag`, if the node declares one.
    pub fn get_tag(&self, tag: &str) -> (r: Option<&String>)
        ensures
            match r {
                Some(v) => exists|i: int|
                    0 <= i < self.tags@.len() && self.tags@[i].1 == *v && self.tags@[i].0@ == tag@
                        && forall|j: int| 0 <= j < i ==> self.tags@[j].0@ != tag@,
                None => forall|j: int| 0 <= j < self.tags@.len() ==> self.tags@[j].0@ != tag@,
            },
    {
        let mut i: usize = 0;
        while i < self.tags.len()
            invariant
                0 <= i <= self.tags@.len(),
                forall|j: int| 0 <= j < i ==> self.tags@[j].0@ != tag@,
            decreases self.tags@.len() - i,
        {
            if str_eq(self.tags[i].0.as_str(), tag) {
                return Some(&self.tags[i].1);
            }
            i = i + 1;
        }
        None
    }
}

/// Character-wise equality of two strings.
pub fn str_eq(a: &str, b: &str) -> (r: bool)
    ensures
        r == (a@ == b@),
{
    let x = a.to_owned();
    let y = b.to_owned();
    x == y
}

} // verus!
