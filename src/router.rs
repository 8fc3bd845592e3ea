use vstd::prelude::*;

use crate::api::{EndPoint, EndPointKind, str_eq};
use crate::error::{UnicomError, UnicomErrorKind};
use crate::pattern::{all_captures, compiles, group_text, regex_captures, regex_valid};

verus! {

/// An endpoint's regex anchored at both ends.
pub open spec fn anchored(r: Seq<char>) -> Seq<char> {
    seq!['^'] + r + seq!['$']
}

/// One registered endpoint: the anchored pattern, what to do, and the node
/// that declared it.
#[derive(Debug)]
pub struct Route {
    pub pattern: String,
    pub kind: EndPointKind,
    pub node: String,
}

/// Whether a route's pattern matches the path.
pub open spec fn hits(rt: Route, path: Seq<char>) -> bool {
    regex_captures(rt.pattern@, path).len() > 0
}

/// Index of the first route that matches the path.
pub open spec fn first_hit(routes: Seq<Route>, path: Seq<char>) -> Option<int> {
    if exists|i: int|
        0 <= i < routes.len() && hits(routes[i], path) && forall|j: int|
            0 <= j < i ==> !hits(routes[j], path) {
        Some(
            choose|i: int|
                0 <= i < routes.len() && hits(routes[i], path) && forall|j: int|
                    0 <= j < i ==> !hits(routes[j], path),
        )
    } else {
        None
    }
}

/// The ordered table of routes; the first match wins.
pub struct Router {
    routes: Vec<Route>,
}

impl Router {
    pub closed spec fn view(&self) -> Seq<Route> {
        self.routes@
    }

    /// Every stored pattern compiles.
    pub open spec fn wf(&self) -> bool {
        forall|i: int| 0 <= i < self@.len() ==> regex_valid(#[trigger] self@[i].pattern@)
    }

    pub fn new() -> (r: Router)
        ensures
            r.wf(),
            r@.len() == 0,
    {
        Router { routes: Vec::new() }
    }

    /// Registers the endpoints of node `node`, in order, each regex anchored.
    /// Refused whole with `ParameterInvalid` when one regex does not compile.
    pub fn add(&mut self, node: &str, endpoints: Vec<EndPoint>) -> (r: Result<(), UnicomError>)
        requires
            old(self).wf(),
        ensures
            final(self).wf(),
            match r {
                Ok(()) => forall|i: int|
                    0 <= i < endpoints@.len() ==> regex_valid(anchored(#[trigger] endpoints@[i].regex@)),
                Err(e) => e.kind == UnicomErrorKind::ParameterInvalid && exists|i: int|
                    0 <= i < endpoints@.len() && !regex_valid(anchored(#[trigger] endpoints@[i].regex@)),
            },
            r is Ok ==> final(self)@.len() == old(self)@.len() + endpoints@.len()
                && final(self)@.subrange(0, old(self)@.len() as int) == old(self)@
                && forall|i: int|
                0 <= i < endpoints@.len() ==> {
                    let rt = #[trigger] final(self)@[old(self)@.len() + i];
                    &&& rt.pattern@ == anchored(endpoints@[i].regex@)
                    &&& rt.kind == endpoints@[i].kind
                    &&& rt.node@ == node@
                },
            r is Err ==> final(self)@ == old(self)@,
    {
        let mut patterns: Vec<String> = Vec::new();
        let mut i: usize = 0;
        while i < endpoints.len()
            invariant
                0 <= i <= endpoints@.len(),
                self@ == old(self)@,
                old(self).wf(),
                patterns@.len() == i,
                forall|j: int|
                    0 <= j < i ==> (#[trigger] patterns@[j])@ == anchored(endpoints@[j].regex@)
                        && regex_valid(patterns@[j]@),
            decreases endpoints@.len() - i,
        {
            let p = anchor(endpoints[i].regex.as_str());
            if !compiles(p.as_str()) {
                return Err(UnicomError::new(UnicomErrorKind::ParameterInvalid, "invalid endpoint regex"));
            }
            patterns.push(p);
            i = i + 1;
        }
        proof {
            assert forall|j: int| 0 <= j < endpoints@.len() implies regex_valid(anchored(#[trigger] endpoints@[j].regex@)) by {
                assert(patterns@[j]@ == anchored(endpoints@[j].regex@));
            }
        }
        let ghost start = self.routes@.len();
        let ghost eps = endpoints@;
        let mut k: usize = 0;
        let total = endpoints.len();
        let mut endpoints = endpoints;
        let mut patterns = patterns;
        while k < total
            invariant
                total == eps.len(),
                0 <= k <= eps.len(),
                endpoints@.len() == eps.len() - k,
                patterns@.len() == eps.len() - k,
                endpoints@ == eps.subrange(k as int, eps.len() as int),
                forall|j: int|
                    0 <= j < patterns@.len() ==> (#[trigger] patterns@[j])@ == anchored(
                        eps[k + j].regex@,
                    ),
                self.routes@.len() == start + k,
                self.routes@.subrange(0, start as int) == old(self).routes@,
                forall|j: int|
                    0 <= j < k ==> {
                        let rt = #[trigger] self.routes@[start + j];
                        &&& rt.pattern@ == anchored(eps[j].regex@)
                        &&& rt.kind == eps[j].kind
                        &&& rt.node@ == node@
                    },
                forall|j: int| 0 <= j < self.routes@.len() ==> regex_valid(#[trigger] self.routes@[j].pattern@),
                forall|j: int| 0 <= j < eps.len() ==> regex_valid(anchored(#[trigger] eps[j].regex@)),
            decreases eps.len() - k,
        {
            let ghost pats_before = patterns@;
            let ep = endpoints.remove(0);
            let p = patterns.remove(0);
            proof {
                assert(endpoints@ =~= eps.subrange(k + 1, eps.len() as int));
                assert forall|j: int| 0 <= j < patterns@.len() implies (#[trigger] patterns@[j])@ == anchored(
                    eps[k + 1 + j].regex@) by {
                    assert(patterns@[j] == pats_before[j + 1]);
                }
            }
            let ghost before = self.routes@;
            self.routes.push(Route { pattern: p, kind: ep.kind, node: node.to_owned() });
            proof {
                assert(self.routes@.subrange(0, start as int) =~= before.subrange(0, start as int));
                assert(self.routes@[start + k as int] == self.routes@[before.len() as int]);
            }
            k = k + 1;
        }
        Ok(())
    }

    /// The first route whose pattern matches `path`, with the groups of its
    /// first match as texts; `NotFound` when no route matches.
    pub fn find(&self, path: &str) -> (r: Result<(&Route, Vec<String>), UnicomError>)
        requires
            self.wf(),
        ensures
            match r {
                Ok((rt, caps)) => match first_hit(self@, path@) {
                    Some(i) => *rt == self@[i] && caps@.len() == regex_captures(rt.pattern@, path@)[0].len()
                        && forall|k: int| 0 <= k < caps@.len() ==> #[trigger] caps@[k]@ == group_text(
                        regex_captures(rt.pattern@, path@)[0][k],
                    ),
                    None => false,
                },
                Err(e) => first_hit(self@, path@) is None && e.kind == UnicomErrorKind::NotFound,
            },
    {
        let mut i: usize = 0;
        while i < self.routes.len()
            invariant
                self.wf(),
                0 <= i <= self@.len(),
                forall|j: int| 0 <= j < i ==> !hits(#[trigger] self@[j], path@),
            decreases self@.len() - i,
        {
            let rt = &self.routes[i];
            match all_captures(rt.pattern.as_str(), path) {
                Some(ms) => {
                    if ms.len() > 0 {
                        let caps = crate::pattern::groups_as_text(&ms[0]);
                        proof {
                            let ii = i as int;
                            assert(hits(self@[ii], path@));
                            let c = choose|c: int|
                                0 <= c < self@.len() && hits(self@[c], path@) && forall|j: int|
                                    0 <= j < c ==> !hits(self@[j], path@);
                            if c < ii {
                            } else if c > ii {
                                assert(!hits(self@[ii], path@));
                            }
                            assert(first_hit(self@, path@) == Some(ii));
                        }
                        return Ok((rt, caps));
                    }
                },
                None => {
                    proof {
                        assert(regex_valid(self@[i as int].pattern@));
                    }
                },
            }
            i = i + 1;
        }
        proof {
            if exists|c: int|
                0 <= c < self@.len() && hits(self@[c], path@) && forall|j: int|
                    0 <= j < c ==> !hits(self@[j], path@) {
                let c = choose|c: int|
                    0 <= c < self@.len() && hits(self@[c], path@) && forall|j: int|
                        0 <= j < c ==> !hits(self@[j], path@);
                assert(!hits(self@[c], path@));
            }
        }
        Err(UnicomError::new(UnicomErrorKind::NotFound, "url not found"))
    }

    /// Drops every route of node `node`, keeping the order of the others.
    pub fn remove(&mut self, node: &str)
        requires
            old(self).wf(),
        ensures
            final(self).wf(),
            forall|i: int| 0 <= i < final(self)@.len() ==> (#[trigger] final(self)@[i]).node@ != node@,
            final(self)@ == old(self)@.filter(|rt: Route| rt.node@ != node@),
    {
        let ghost orig = self.routes@;
        let mut kept: Vec<Route> = Vec::new();
        let mut rest: Vec<Route> = Vec::new();
        std::mem::swap(&mut rest, &mut self.routes);
        let mut k: usize = 0;
        let n = rest.len();
        while k < n
            invariant
                n == orig.len(),
                0 <= k <= n,
                rest@.len() == n - k,
                rest@ == orig.subrange(k as int, n as int),
                kept@ == orig.subrange(0, k as int).filter(|rt: Route| rt.node@ != node@),
            decreases n - k,
        {
            let rt = rest.remove(0);
            proof {
                assert(rest@ =~= orig.subrange(k + 1, n as int));
                assert(orig.subrange(0, k + 1) =~= orig.subrange(0, k as int).push(orig[k as int]));
                orig.subrange(0, k as int).lemma_filter_push(orig[k as int], |rt: Route| rt.node@ != node@);
            }
            if !str_eq(rt.node.as_str(), node) {
                kept.push(rt);
            }
            k = k + 1;
        }
        proof {
            assert(orig.subrange(0, n as int) =~= orig);
            let pred = |rt: Route| rt.node@ != node@;
            assert forall|i: int| 0 <= i < kept@.len() implies (#[trigger] kept@[i]).node@ != node@ by {
                orig.lemma_filter_pred(pred, i);
            }
            assert forall|i: int| 0 <= i < kept@.len() implies regex_valid(#[trigger] kept@[i].pattern@) by {
                assert(orig.filter(pred).contains(kept@[i]));
                orig.lemma_filter_contains_rev(pred, kept@[i]);
                let j = choose|j: int| 0 <= j < orig.len() && orig[j] == kept@[i];
                assert(regex_valid(orig[j].pattern@));
            }
        }
        self.routes = kept;
    }
}

/// `^` + `regex` + `$`.
fn anchor(regex: &str) -> (r: String)
    ensures
        r@ == anchored(regex@),
{
    let mut p = String::from_str("^");
    p.append(regex);
    p.append("$");
    proof {
        reveal_strlit("^");
        reveal_strlit("$");
        assert(p@ =~= anchored(regex@));
    }
    p
}

/// Once the routes of a node are removed, no path leads to that node.
pub proof fn lemma_removed_node_unreachable(r: Router, node: Seq<char>, path: Seq<char>)
    requires
        forall|i: int| 0 <= i < r@.len() ==> (#[trigger] r@[i]).node@ != node,
    ensures
        match first_hit(r@, path) {
            Some(i) => r@[i].node@ != node,
            None => true,
        },
{
    if let Some(i) = first_hit(r@, path) {
        assert(r@[i].node@ != node);
    }
}

} // verus!
