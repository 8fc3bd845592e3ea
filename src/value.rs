use vstd::prelude::*;

verus! {

/// A value handed to a node as an RPC parameter.
///
/// `Number` holds the decimal text of a non-integer number; `Json` holds the
/// JSON text of a structured value (a request body, a user record).
#[derive(Debug)]
pub enum ParamValue {
    Null,
    Bool(bool),
    Int(i64),
    Number(String),
    Text(String),
    Json(String),
}

impl Clone for ParamValue {
    fn clone(&self) -> (r: ParamValue)
        ensures
            r == *self,
    {
        match self {
            ParamValue::Null => ParamValue::Null,
            ParamValue::Bool(b) => ParamValue::Bool(*b),
            ParamValue::Int(i) => ParamValue::Int(*i),
            ParamValue::Number(s) => ParamValue::Number(s.clone()),
            ParamValue::Text(s) => ParamValue::Text(s.clone()),
            ParamValue::Json(s) => ParamValue::Json(s.clone()),
        }
    }
}

/// The mathematical value of a parameter: strings as character sequences.
pub enum ParamView {
    Null,
    Bool(bool),
    Int(i64),
    Number(Seq<char>),
    Text(Seq<char>),
    Json(Seq<char>),
}

impl View for ParamValue {
    type V = ParamView;

    open spec fn view(&self) -> ParamView {
        match self {
            ParamValue::Null => ParamView::Null,
            ParamValue::Bool(b) => ParamView::Bool(*b),
            ParamValue::Int(i) => ParamView::Int(*i),
            ParamValue::Number(s) => ParamView::Number(s@),
            ParamValue::Text(s) => ParamView::Text(s@),
            ParamValue::Json(s) => ParamView::Json(s@),
        }
    }
}

/// A named parameter map as a sequence of (key, value) pairs, keys distinct.
pub open spec fn params_view(p: Seq<(String, ParamValue)>) -> Seq<(Seq<char>, ParamView)> {
    p.map_values(|e: (String, ParamValue)| (e.0@, e.1@))
}

/// The keys of a parameter list are pairwise distinct.
pub open spec fn keys_distinct(p: Seq<(Seq<char>, ParamView)>) -> bool {
    forall|i: int, j: int| 0 <= i < j < p.len() ==> p[i].0 != p[j].0
}

/// Index of `key` in a parameter list, if it is there.
pub open spec fn key_index(p: Seq<(Seq<char>, ParamView)>, key: Seq<char>) -> Option<int> {
    if exists|i: int| 0 <= i < p.len() && p[i].0 == key {
        Some(choose|i: int| 0 <= i < p.len() && p[i].0 == key)
    } else {
        None
    }
}

/// The list with `key` bound to `v`: replaced in place when present, appended
/// otherwise. This is how a map insertion acts on an ordered parameter list.
pub open spec fn insert_param(p: Seq<(Seq<char>, ParamView)>, key: Seq<char>, v: ParamView) -> Seq<(Seq<char>, ParamView)> {
    match key_index(p, key) {
        Some(i) => p.update(i, (key, v)),
        None => p.push((key, v)),
    }
}

/// Binds `key` to `value` in `params`, replacing an earlier binding of the key.
pub fn insert_param_value(params: &mut Vec<(String, ParamValue)>, key: String, value: ParamValue)
    requires
        keys_distinct(params_view(old(params)@)),
    ensures
        params_view(final(params)@) == insert_param(params_view(old(params)@), key@, value@),
        keys_distinct(params_view(final(params)@)),
{
    let ghost pv = params_view(params@);
    let mut i: usize = 0;
    while i < params.len()
        invariant
            0 <= i <= params@.len(),
            params@ == old(params)@,
            pv == params_view(params@),
            pv.len() == params@.len(),
            keys_distinct(pv),
            forall|j: int| 0 <= j < i ==> pv[j].0 != key@,
        decreases params@.len() - i,
    {
        if params[i].0 == key {
            let ghost idx = i as int;
            proof {
                assert(pv[idx].0 == key@);
                let k = key_index(pv, key@).unwrap();
                assert(pv[k].0 == key@);
                if k != idx {
                    assert(keys_distinct(pv));
                }
                assert(k == idx);
            }
            params.set(i, (key, value));
            proof {
                assert(params_view(params@) =~= pv.update(idx, (key@, value@)));
                assert(keys_distinct(params_view(params@)));
            }
            return;
        }
        i = i + 1;
    }
    proof {
        assert(key_index(pv, key@) is None);
    }
    params.push((key, value));
    proof {
        assert(params_view(params@) =~= pv.push((key@, value@)));
        assert(keys_distinct(params_view(params@)));
    }
}

} // verus!
