use vstd::prelude::*;

use crate::api::{Api, NodeConfig, Template, str_eq};
use crate::app::{AppConfig, AppState, LaunchCommand};
use crate::error::{UnicomError, UnicomErrorKind};
use crate::router::Router;
use crate::supervisor::{AppControler, LoadOutcome};

verus! {

/// A registered node: its name, its APIs and its tags.
#[derive(Debug)]
pub struct Node {
    pub name: String,
    pub apis: Vec<Api>,
    pub tags: Vec<(String, String)>,
}

/// The live nodes with their routes and the applications that back them.
pub struct Controller {
    nodes: Vec<Node>,
    router: Router,
    apps: AppControler,
}

/// An application runs exactly when a node of its name is registered.
pub open spec fn coherent(nodes: Seq<Node>, apps: Seq<crate::app::App>) -> bool {
    forall|i: int|
        0 <= i < apps.len() ==> ((#[trigger] apps[i]).state == AppState::Running <==> registered(
            nodes,
            apps[i].config.name@,
        ))
}

/// Node names are pairwise distinct.
pub open spec fn names_distinct(nodes: Seq<Node>) -> bool {
    forall|i: int, j: int| 0 <= i < j < nodes.len() ==> nodes[i].name@ != nodes[j].name@
}

/// A node of this name is registered.
pub open spec fn registered(nodes: Seq<Node>, name: Seq<char>) -> bool {
    exists|j: int| 0 <= j < nodes.len() && nodes[j].name@ == name
}

impl Controller {
    pub closed spec fn nodes(&self) -> Seq<Node> {
        self.nodes@
    }

    pub closed spec fn router_view(&self) -> Router {
        self.router
    }

    pub closed spec fn apps_view(&self) -> AppControler {
        self.apps
    }

    /// Node names are distinct, the parts are well formed, and a running
    /// application has its node registered.
    pub open spec fn wf(&self) -> bool {
        &&& names_distinct(self.nodes())
        &&& self.router_view().wf()
        &&& self.apps_view().wf()
        &&& forall|i: int|
            0 <= i < self.apps_view()@.len() && (#[trigger] self.apps_view()@[i]).state
                == AppState::Running ==> registered(self.nodes(), self.apps_view()@[i].config.name@)
    }

    pub fn new(app_dir: &str) -> (r: Controller)
        ensures
            r.wf(),
            r.nodes().len() == 0,
            r.router_view()@.len() == 0,
            r.apps_view()@.len() == 0,
    {
        Controller { nodes: Vec::new(), router: Router::new(), apps: AppControler::new(app_dir) }
    }

    pub fn router(&self) -> (r: &Router)
        ensures
            *r == self.router_view(),
    {
        &self.router
    }

    pub fn apps(&self) -> (r: &AppControler)
        ensures
            *r == self.apps_view(),
    {
        &self.apps
    }

    /// Index of the node called `name`.
    fn node_index(&self, name: &str) -> (r: Option<usize>)
        ensures
            match r {
                Some(i) => i < self.nodes().len() && self.nodes()[i as int].name@ == name@,
                None => !registered(self.nodes(), name@),
            },
    {
        let mut i: usize = 0;
        while i < self.nodes.len()
            invariant
                0 <= i <= self.nodes@.len(),
                forall|j: int| 0 <= j < i ==> self.nodes@[j].name@ != name@,
            decreases self.nodes@.len() - i,
        {
            if str_eq(self.nodes[i].name.as_str(), name) {
                return Some(i);
            }
            i = i + 1;
        }
        None
    }

    /// Registers the node that a manifest describes: its routes are added
    /// and its application runs; the applications waiting for it start.
    /// Returns its templates and the commands to spawn. A name already
    /// registered, or an endpoint regex that does not compile, is refused
    /// with `ParameterInvalid` and changes nothing.
    pub fn new_node(&mut self, config: NodeConfig) -> (r: Result<(Vec<Template>, Vec<(usize, LaunchCommand)>), UnicomError>)
        requires
            old(self).wf(),
        ensures
            coherent(old(self).nodes(), old(self).apps_view()@) ==> coherent(
                final(self).nodes(),
                final(self).apps_view()@,
            ),
            final(self).wf(),
            match r {
                Ok((templates, launches)) => templates == config.templates
                    && crate::supervisor::launches_reported(
                    crate::supervisor::with_running(old(self).apps_view()@, config.name@),
                    Some(config.name@),
                    launches@,
                ) && final(self).apps_view()@.len() == old(self).apps_view()@.len() && (forall|i: int|
                    0 <= i < old(self).apps_view()@.len() ==> {
                        let (a, b) = (old(self).apps_view()@[i], #[trigger] final(self).apps_view()@[i]);
                        &&& b.config == a.config
                        &&& b.dir == a.dir
                        &&& a.config.name@ != config.name@ ==> b.state == if crate::supervisor::should_start(
                            a,
                            Some(config.name@),
                        ) {
                            crate::app::started(a.state)
                        } else {
                            a.state
                        }
                    }) && !registered(old(self).nodes(), config.name@) && final(self).nodes()
                    == old(self).nodes().push(final(self).nodes().last()) && final(self).nodes().last().name@
                    == config.name@ && final(self).nodes().last().apis == config.apis
                    && final(self).nodes().last().tags == config.tags && (forall|i: int|
                    0 <= i < final(self).apps_view()@.len() && (#[trigger] final(self).apps_view()@[i]).config.name@
                        == config.name@ ==> final(self).apps_view()@[i].state == AppState::Running)
                    && final(self).router_view()@.len() == old(self).router_view()@.len()
                    + config.endpoints@.len() && final(self).router_view()@.subrange(
                    0,
                    old(self).router_view()@.len() as int,
                ) == old(self).router_view()@ && (forall|i: int|
                    0 <= i < config.endpoints@.len() ==> {
                        let rt = #[trigger] final(self).router_view()@[old(self).router_view()@.len() + i];
                        &&& rt.pattern@ == crate::router::anchored(config.endpoints@[i].regex@)
                        &&& rt.node@ == config.name@
                    }),
                Err(e) => e.kind == UnicomErrorKind::ParameterInvalid && final(self).nodes() == old(self).nodes() && final(self).router_view()@ == old(self).router_view()@
                    && final(self).apps_view() == old(self).apps_view() && (registered(
                    old(self).nodes(),
                    config.name@,
                ) || exists|i: int|
                    0 <= i < config.endpoints@.len() && !crate::pattern::regex_valid(
                        crate::router::anchored(#[trigger] config.endpoints@[i].regex@),
                    )),
            },
    {
        if self.node_index(config.name.as_str()).is_some() {
            return Err(UnicomError::new(UnicomErrorKind::ParameterInvalid, "node name already registered"));
        }
        let NodeConfig { name, apis, endpoints, templates, tags } = config;
        match self.router.add(name.as_str(), endpoints) {
            Ok(()) => {},
            Err(e) => {
                return Err(e);
            },
        }
        let ghost n0 = self.nodes@;
        self.nodes.push(Node { name: name.clone(), apis, tags });
        let ghost a0 = self.apps@;
        let launches = self.apps.add_node(name.as_str());
        proof {
            assert forall|i: int, j: int| 0 <= i < j < self.nodes().len() implies self.nodes()[i].name@
                != self.nodes()[j].name@ by {
                if j == n0.len() {
                    assert(self.nodes()[i] == n0[i]);
                }
            }
            assert forall|i: int|
                0 <= i < self.apps@.len() && (#[trigger] self.apps@[i]).state == AppState::Running implies registered(
                self.nodes(),
                self.apps@[i].config.name@,
            ) by {
                let a = a0[i];
                if a.config.name@ == name@ {
                    assert(self.nodes()[n0.len() as int].name@ == name@);
                } else {
                    crate::app::lemma_start_stop_idempotent(a.state);
                    assert(a.state == AppState::Running);
                    let j = choose|j: int| 0 <= j < n0.len() && n0[j].name@ == a.config.name@;
                    assert(self.nodes()[j] == n0[j]);
                }
            }
        }
        Ok((templates, launches))
    }

    /// The node called `name`; `NotFound` otherwise.
    pub fn node(&self, name: &str) -> (r: Result<&Node, UnicomError>)
        ensures
            match r {
                Ok(n) => exists|i: int| 0 <= i < self.nodes().len() && self.nodes()[i] == *n && n.name@ == name@,
                Err(e) => e.kind == UnicomErrorKind::NotFound && !registered(self.nodes(), name@),
            },
    {
        match self.node_index(name) {
            Some(i) => Ok(&self.nodes[i]),
            None => Err(UnicomError::new(UnicomErrorKind::NotFound, "node not found")),
        }
    }

    /// Starts the applications that wait for no node.
    pub fn start_apps(&mut self) -> (r: Vec<(usize, LaunchCommand)>)
        requires
            old(self).wf(),
        ensures
            coherent(old(self).nodes(), old(self).apps_view()@) ==> coherent(
                final(self).nodes(),
                final(self).apps_view()@,
            ),
            final(self).wf(),
            final(self).nodes() == old(self).nodes(),
            crate::supervisor::launches_reported(old(self).apps_view()@, None, r@),
            final(self).apps_view()@.len() == old(self).apps_view()@.len(),
            forall|i: int|
                0 <= i < old(self).apps_view()@.len() ==> {
                    let (a, b) = (old(self).apps_view()@[i], #[trigger] final(self).apps_view()@[i]);
                    &&& b.config == a.config
                    &&& b.dir == a.dir
                    &&& b.state == if crate::supervisor::should_start(a, None) {
                        crate::app::started(a.state)
                    } else {
                        a.state
                    }
                },
    {
        let ghost a0 = self.apps@;
        let r = self.apps.start_app(None);
        proof {
            assert forall|i: int|
                0 <= i < self.apps@.len() && (#[trigger] self.apps@[i]).state == AppState::Running implies registered(
                self.nodes(),
                self.apps@[i].config.name@,
            ) by {
                crate::app::lemma_start_stop_idempotent(a0[i].state);
                assert(a0[i].state == AppState::Running);
            }
            assert(crate::supervisor::opt_view(None) == None::<Seq<char>>);
        }
        r
    }

    /// Records the process spawned for application `index`.
    pub fn attach_app(&mut self, index: usize, pid: u32)
        requires
            old(self).wf(),
        ensures
            coherent(old(self).nodes(), old(self).apps_view()@) ==> coherent(
                final(self).nodes(),
                final(self).apps_view()@,
            ),
            final(self).wf(),
            final(self).nodes() == old(self).nodes(),
            final(self).apps_view()@.len() == old(self).apps_view()@.len(),
            forall|i: int|
                0 <= i < old(self).apps_view()@.len() ==> (#[trigger] final(self).apps_view()@[i]).state
                    == old(self).apps_view()@[i].state && final(self).apps_view()@[i].config == old(self).apps_view()@[i].config,
            index < old(self).apps_view()@.len() ==> final(self).apps_view()@[index as int].pid == Some(pid),
    {
        let ghost a0 = self.apps@;
        self.apps.attach(index, pid);
        proof {
            assert forall|i: int|
                0 <= i < self.apps@.len() && (#[trigger] self.apps@[i]).state == AppState::Running implies registered(
                self.nodes(),
                self.apps@[i].config.name@,
            ) by {
                assert(a0[i].state == AppState::Running);
            }
        }
    }

    /// Stops application `name`; returns the process to interrupt.
    pub fn stop_app(&mut self, name: &str) -> (r: Result<Option<u32>, UnicomError>)
        requires
            old(self).wf(),
        ensures
            final(self).wf(),
            final(self).nodes() == old(self).nodes(),
            final(self).apps_view()@.len() == old(self).apps_view()@.len(),
            match r {
                Ok(p) => exists|i: int|
                    0 <= i < old(self).apps_view()@.len() && old(self).apps_view()@[i].config.name@ == name@
                        && p == old(self).apps_view()@[i].pid && final(self).apps_view()@
                        == old(self).apps_view()@.update(i, final(self).apps_view()@[i])
                        && final(self).apps_view()@[i].state == AppState::Stoped
                        && final(self).apps_view()@[i].pid is None && final(self).apps_view()@[i].config
                        == old(self).apps_view()@[i].config,
                Err(e) => e.kind == UnicomErrorKind::NotFound && final(self).apps_view()@ == old(self).apps_view()@
                    && forall|j: int|
                    0 <= j < old(self).apps_view()@.len() ==> old(self).apps_view()@[j].config.name@ != name@,
            },
    {
        let ghost a0 = self.apps@;
        let r = self.apps.stop(name);
        proof {
            assert forall|i: int|
                0 <= i < self.apps@.len() && (#[trigger] self.apps@[i]).state == AppState::Running implies registered(
                self.nodes(),
                self.apps@[i].config.name@,
            ) by {
                assert(a0[i].state == AppState::Running);
            }
        }
        r
    }

    /// Directory of application `name`; `NotFound` otherwise.
    pub fn app_dir(&self, name: &str) -> (r: Result<String, UnicomError>)
        ensures
            match r {
                Ok(d) => exists|i: int|
                    0 <= i < self.apps_view()@.len() && self.apps_view()@[i].config.name@ == name@ && d@
                        == self.apps_view()@[i].dir@,
                Err(e) => e.kind == UnicomErrorKind::NotFound && forall|j: int|
                    0 <= j < self.apps_view()@.len() ==> self.apps_view()@[j].config.name@ != name@,
            },
    {
        self.apps.app_dir(name)
    }

    /// Loads an application directory; see `AppControler::load`.
    pub fn load_app(&mut self, dir: &str, config: AppConfig, reload: bool) -> (r: Result<LoadOutcome, UnicomError>)
        requires
            old(self).wf(),
        ensures
            final(self).wf(),
            final(self).nodes() == old(self).nodes(),
            match r {
                Ok(o) => {
                    let n = final(self).apps_view()@.len() - 1;
                    &&& final(self).apps_view()@[n].config == config
                    &&& final(self).apps_view()@[n].dir@ == dir@
                    &&& final(self).apps_view()@[n].state == if reload {
                        AppState::Started
                    } else {
                        AppState::Waiting
                    }
                    &&& reload == (o.launch is Some)
                },
                Err(e) => e.kind == UnicomErrorKind::ParameterInvalid && !reload,
            },
    {
        let ghost a0 = self.apps@;
        let ghost cname = config.name@;
        let r = self.apps.load(dir, config, reload);
        proof {
            if r is Ok {
                let n = self.apps@.len() - 1;
                let pred = crate::supervisor::other_name(cname);
                assert forall|i: int|
                    0 <= i < self.apps@.len() && (#[trigger] self.apps@[i]).state == AppState::Running implies registered(
                    self.nodes(),
                    self.apps@[i].config.name@,
                ) by {
                    if i < n {
                        assert(self.apps@.subrange(0, n)[i] == self.apps@[i]);
                        assert(self.apps@.subrange(0, n) == a0.filter(pred));
                        assert(a0.filter(pred)[i] == self.apps@[i]);
                        assert(a0.filter(pred).contains(self.apps@[i]));
                        a0.lemma_filter_contains_rev(pred, self.apps@[i]);
                        let j = choose|j: int| 0 <= j < a0.len() && a0[j] == self.apps@[i];
                        assert(a0[j].state == AppState::Running);
                    }
                }
            }
        }
        r
    }

    /// Shuts down: returns the names of the nodes to tell to quit, last
    /// registered first, and the applications to stop with their processes.
    pub fn stop(&mut self) -> (r: (Vec<String>, Vec<(String, Option<u32>)>))
        requires
            old(self).wf(),
        ensures
            final(self).wf(),
            final(self).nodes().len() == 0,
            final(self).apps_view()@.len() == 0,
            r.0@.len() == old(self).nodes().len(),
            forall|i: int|
                0 <= i < r.0@.len() ==> (#[trigger] r.0@[i])@ == old(self).nodes()[old(self).nodes().len() - 1 - i].name@,
    {
        let mut names: Vec<String> = Vec::new();
        let ghost n0 = self.nodes@;
        while self.nodes.len() > 0
            invariant
                self.nodes@ == n0.subrange(0, n0.len() - names@.len()),
                self.apps == old(self).apps,
                self.router == old(self).router,
                old(self).wf(),
                names@.len() <= n0.len(),
                forall|i: int| 0 <= i < names@.len() ==> (#[trigger] names@[i])@ == n0[n0.len() - 1 - i].name@,
            decreases self.nodes@.len(),
        {
            let n = self.nodes.pop().unwrap();
            names.push(n.name);
            proof {
                assert(self.nodes@ =~= n0.subrange(0, n0.len() - names@.len()));
            }
        }
        let apps = self.apps.close();
        proof {
            assert(names_distinct(self.nodes()));
        }
        (names, apps)
    }

    /// Names of all nodes, in order of registration.
    pub fn get_node_name(&self) -> (r: Vec<String>)
        ensures
            r@.len() == self.nodes().len(),
            forall|i: int| 0 <= i < r@.len() ==> (#[trigger] r@[i])@ == self.nodes()[i].name@,
    {
        let mut out: Vec<String> = Vec::new();
        let mut i: usize = 0;
        while i < self.nodes.len()
            invariant
                0 <= i <= self.nodes@.len(),
                out@.len() == i,
                forall|j: int| 0 <= j < i ==> (#[trigger] out@[j])@ == self.nodes@[j].name@,
            decreases self.nodes@.len() - i,
        {
            out.push(self.nodes[i].name.clone());
            i = i + 1;
        }
        out
    }

    /// `(name, value)` of each node that declares tag `tag`, in order.
    pub fn get_node_tag(&self, tag: &str) -> (r: Vec<(String, String)>)
        ensures
            pairs_view(r@) == tag_list(self.nodes(), tag@),
    {
        let mut out: Vec<(String, String)> = Vec::new();
        let mut i: usize = 0;
        while i < self.nodes.len()
            invariant
                0 <= i <= self.nodes@.len(),
                pairs_view(out@) == tag_list(self.nodes@.subrange(0, i as int), tag@),
            decreases self.nodes@.len() - i,
        {
            let ghost before = out@;
            proof {
                assert(self.nodes@.subrange(0, i + 1).drop_last() =~= self.nodes@.subrange(0, i as int));
            }
            match self.nodes[i].get_tag(tag) {
                Some(v) => {
                    out.push((self.nodes[i].name.clone(), v.clone()));
                    proof {
                        assert(pairs_view(out@) =~= pairs_view(before).push((self.nodes@[i as int].name@, v@)));
                    }
                },
                None => {},
            }
            i = i + 1;
        }
        proof {
            assert(self.nodes@.subrange(0, self.nodes@.len() as int) =~= self.nodes@);
        }
        out
    }

    /// Unregisters node `name`: its routes go, and its application becomes
    /// a zombie. `NotFound` when no such node is registered.
    pub fn remove_node(&mut self, name: &str) -> (r: Result<(), UnicomError>)
        requires
            old(self).wf(),
        ensures
            coherent(old(self).nodes(), old(self).apps_view()@) ==> coherent(
                final(self).nodes(),
                final(self).apps_view()@,
            ),
            final(self).wf(),
            !registered(final(self).nodes(), name@),
            match r {
                Ok(()) => {
                    &&& exists|i: int|
                        0 <= i < old(self).nodes().len() && old(self).nodes()[i].name@ == name@
                            && final(self).nodes() == old(self).nodes().remove(i)
                    &&& final(self).router_view()@ == old(self).router_view()@.filter(
                        |rt: crate::router::Route| rt.node@ != name@,
                    )
                    &&& forall|i: int|
                        0 <= i < final(self).router_view()@.len() ==> (#[trigger] final(self).router_view()@[i]).node@ != name@
                    &&& final(self).apps_view()@.len() == old(self).apps_view()@.len()
                    &&& forall|i: int|
                        0 <= i < old(self).apps_view()@.len() ==> {
                            let (a, b) = (old(self).apps_view()@[i], #[trigger] final(self).apps_view()@[i]);
                            &&& b.config == a.config
                            &&& b.state == if a.config.name@ == name@ {
                                AppState::Zombie
                            } else {
                                a.state
                            }
                        }
                },
                Err(e) => e.kind == UnicomErrorKind::NotFound && !registered(old(self).nodes(), name@)
                    && final(self).nodes() == old(self).nodes() && final(self).router_view()@ == old(self).router_view()@ && final(self).apps_view()@ == old(self).apps_view()@,
            },
    {
        let i = match self.node_index(name) {
            Some(i) => i,
            None => {
                return Err(UnicomError::new(UnicomErrorKind::NotFound, "node not found"));
            },
        };
        self.router.remove(name);
        let ghost a0 = self.apps@;
        self.apps.remove_node(name);
        let ghost n0 = self.nodes@;
        self.nodes.remove(i);
        proof {
            assert forall|j: int| 0 <= j < self.nodes@.len() implies self.nodes@[j].name@ != name@ by {
                if j < i {
                    assert(self.nodes@[j] == n0[j]);
                } else {
                    assert(self.nodes@[j] == n0[j + 1]);
                }
            }
            assert forall|a: int, b: int| 0 <= a < b < self.nodes@.len() implies self.nodes@[a].name@
                != self.nodes@[b].name@ by {
                let a1 = if a < i { a } else { a + 1 };
                let b1 = if b < i { b } else { b + 1 };
                assert(self.nodes@[a] == n0[a1]);
                assert(self.nodes@[b] == n0[b1]);
            }
            assert forall|k: int|
                0 <= k < self.apps@.len() && (#[trigger] self.apps@[k]).state == AppState::Running implies registered(
                self.nodes(),
                self.apps@[k].config.name@,
            ) by {
                let nm = a0[k].config.name@;
                let j = choose|j: int| 0 <= j < n0.len() && n0[j].name@ == nm;
                assert(j != i);
                if j < i {
                    assert(self.nodes@[j] == n0[j]);
                } else {
                    assert(self.nodes@[j - 1] == n0[j]);
                }
            }
        }
        Ok(())
    }
}

/// Pairs of strings as pairs of texts.
pub open spec fn pairs_view(p: Seq<(String, String)>) -> Seq<(Seq<char>, Seq<char>)> {
    p.map_values(|e: (String, String)| (e.0@, e.1@))
}

/// `(name, value)` of each node that declares `tag`, in order.
pub open spec fn tag_list(nodes: Seq<Node>, tag: Seq<char>) -> Seq<(Seq<char>, Seq<char>)>
    decreases nodes.len(),
{
    if nodes.len() == 0 {
        seq![]
    } else {
        let rest = tag_list(nodes.drop_last(), tag);
        match tag_value(nodes.last(), tag) {
            Some(v) => rest.push((nodes.last().name@, v)),
            None => rest,
        }
    }
}

/// The value of the first tag called `tag` that a node declares.
pub open spec fn tag_value(n: Node, tag: Seq<char>) -> Option<Seq<char>> {
    if exists|i: int| 0 <= i < n.tags@.len() && n.tags@[i].0@ == tag {
        let i = choose|i: int|
            0 <= i < n.tags@.len() && n.tags@[i].0@ == tag && forall|j: int|
                0 <= j < i ==> n.tags@[j].0@ != tag;
        Some(n.tags@[i].1@)
    } else {
        None
    }
}

impl Node {
    /// The value of the first tag called `tag`.
    pub fn get_tag(&self, tag: &str) -> (r: Option<&String>)
        ensures
            match r {
                Some(v) => tag_value(*self, tag@) == Some(v@),
                None => tag_value(*self, tag@) is None,
            },
    {
        let mut i: usize = 0;
        while i < self.tags.len()
            invariant
                0 <= i <= self.tags@.len(),
                forall|j: int| 0 <= j < i ==> self.tags@[j].0@ != tag@,
            decreases self.tags@.len() - i,
        {
            if str_eq(self.tags[i].0.as_str(), tag) {
                proof {
                    let c = choose|c: int|
                        0 <= c < self.tags@.len() && self.tags@[c].0@ == tag@ && forall|j: int|
                            0 <= j < c ==> self.tags@[j].0@ != tag@;
                    assert(c == i) by {
                        if c < i {
                        } else if c > i {
                            assert(self.tags@[i as int].0@ == tag@);
                        }
                    }
                }
                return Some(&self.tags[i].1);
            }
            i = i + 1;
        }
        None
    }

    /// The first API called `name`; `NotFound` otherwise.
    pub fn api(&self, name: &str) -> (r: Result<&Api, UnicomError>)
        ensures
            match r {
                Ok(a) => exists|i: int|
                    0 <= i < self.apis@.len() && self.apis@[i] == *a && a.name@ == name@
                        && forall|j: int| 0 <= j < i ==> self.apis@[j].name@ != name@,
                Err(e) => e.kind == UnicomErrorKind::NotFound
                    && forall|j: int| 0 <= j < self.apis@.len() ==> self.apis@[j].name@ != name@,
            },
    {
        let mut i: usize = 0;
        while i < self.apis.len()
            invariant
                0 <= i <= self.apis@.len(),
                forall|j: int| 0 <= j < i ==> self.apis@[j].name@ != name@,
            decreases self.apis@.len() - i,
        {
            if str_eq(self.apis[i].name.as_str(), name) {
                return Ok(&self.apis[i]);
            }
            i = i + 1;
        }
        Err(UnicomError::new(UnicomErrorKind::NotFound, "api not found"))
    }
}

/// An application that runs has its node registered.
pub proof fn lemma_running_app_has_node(c: Controller, i: int)
    requires
        c.wf(),
        0 <= i < c.apps_view()@.len(),
        c.apps_view()@[i].state == AppState::Running,
    ensures
        registered(c.nodes(), c.apps_view()@[i].config.name@),
{
}

} // verus!
