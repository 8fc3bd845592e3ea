use vstd::prelude::*;

verus! {

/// Whether the `regex` crate accepts a pattern.
pub uninterp spec fn regex_valid(pattern: Seq<char>) -> bool;

/// The successive non-overlapping matches of a valid pattern in a text, each
/// as its capture groups (group 0 is the whole match; `None` for a group that
/// took no part in the match).
pub uninterp spec fn regex_captures(pattern: Seq<char>, text: Seq<char>) -> Seq<Seq<Option<Seq<char>>>>;

pub open spec fn group_views(g: Seq<Option<String>>) -> Seq<Option<Seq<char>>> {
    g.map_values(|o: Option<String>| match o {
        Some(s) => Some(s@),
        None => None,
    })
}

pub open spec fn matches_views(v: Seq<Vec<Option<String>>>) -> Seq<Seq<Option<Seq<char>>>> {
    v.map_values(|c: Vec<Option<String>>| group_views(c@))
}

/// Relies on `regex::Regex::new`: whether a pattern compiles depends on the
/// pattern alone.
#[verifier::external_body]
pub(crate) fn compiles(pattern: &str) -> (r: bool)
    ensures
        r == regex_valid(pattern@),
{
    regex::Regex::new(pattern).is_ok()
}

/// Relies on `regex::Regex::new` and `regex::Regex::captures_iter`: the
/// matches of the pattern in the text with their groups, `None` when the
/// pattern does not compile.
#[verifier::external_body]
pub(crate) fn all_captures(pattern: &str, text: &str) -> (r: Option<Vec<Vec<Option<String>>>>)
    ensures
        match r {
            Some(v) => regex_valid(pattern@) && matches_views(v@) == regex_captures(pattern@, text@),
            None => !regex_valid(pattern@),
        },
{
    let re = regex::Regex::new(pattern).ok()?;
    Some(
        re.captures_iter(text).map(
            |c| c.iter().map(|m| m.map(|m| m.as_str().to_string())).collect(),
        ).collect(),
    )
}

/// A capture group as text: a group that took no part is empty.
pub open spec fn group_text(g: Option<Seq<char>>) -> Seq<char> {
    match g {
        Some(s) => s,
        None => Seq::empty(),
    }
}

/// The groups of one match as texts.
pub fn groups_as_text(g: &Vec<Option<String>>) -> (r: Vec<String>)
    ensures
        r@.len() == g@.len(),
        forall|i: int| 0 <= i < g@.len() ==> #[trigger] r@[i]@ == group_text(group_views(g@)[i]),
{
    let mut out: Vec<String> = Vec::new();
    let mut i: usize = 0;
    while i < g.len()
        invariant
            0 <= i <= g@.len(),
            out@.len() == i,
            forall|j: int| 0 <= j < i ==> #[trigger] out@[j]@ == group_text(group_views(g@)[j]),
        decreases g@.len() - i,
    {
        match &g[i] {
            Some(s) => out.push(s.clone()),
            None => out.push(String::new()),
        }
        i = i + 1;
    }
    out
}

} // verus!
