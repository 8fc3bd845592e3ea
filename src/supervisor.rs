use vstd::prelude::*;

use crate::api::str_eq;
use crate::app::{App, AppConfig, AppState, LaunchCommand, python_runtime, started};
use crate::error::{UnicomError, UnicomErrorKind};

verus! {

/// Whether `start_app(after)` starts this application: on the first pass
/// (`None`) those without `after`; when node `n` registers, those whose
/// `after` is `n`.
pub open spec fn should_start(app: App, after: Option<Seq<char>>) -> bool {
    match (app.config.after, after) {
        (None, None) => true,
        (Some(a), Some(n)) => a@ == n,
        _ => false,
    }
}

/// `start` moves this application and hands out a command.
pub open spec fn launches(app: App) -> bool {
    app.state == AppState::Waiting || app.state == AppState::Stoped
}

/// The launches reported for a pass of `start` over `before`: one per
/// application that moved, in order, each with its command.
pub open spec fn launches_reported(before: Seq<App>, after: Option<Seq<char>>, r: Seq<(usize, LaunchCommand)>) -> bool {
    &&& forall|k: int|
        0 <= k < r.len() ==> {
            let i = (#[trigger] r[k]).0 as int;
            &&& 0 <= i < before.len()
            &&& should_start(before[i], after) && launches(before[i])
            &&& r[k].1.program@ == python_runtime()
            &&& r[k].1.args@.map_values(|a: String| a@) == before[i].launch_args()
        }
    &&& forall|k: int, l: int| 0 <= k < l < r.len() ==> r[k].0 < r[l].0
    &&& forall|i: int|
        0 <= i < before.len() && should_start(before[i], after) && launches(before[i]) ==> exists|k: int|
            0 <= k < r.len() && (#[trigger] r[k]).0 == i
}

/// What loading an application directory asks of the caller.
#[derive(Debug)]
pub struct LoadOutcome {
    /// Process of the application that the new one replaces, to interrupt.
    pub stopped: Option<u32>,
    /// Index and command of the application to spawn, when reloading.
    pub launch: Option<(usize, LaunchCommand)>,
}

/// The applications under one root directory.
pub struct AppControler {
    apps: Vec<App>,
    location: String,
}

impl AppControler {
    pub closed spec fn view(&self) -> Seq<App> {
        self.apps@
    }

    pub closed spec fn location_view(&self) -> Seq<char> {
        self.location@
    }

    /// Application names are distinct.
    pub open spec fn wf(&self) -> bool {
        forall|i: int, j: int|
            0 <= i < j < self@.len() ==> self@[i].config.name@ != self@[j].config.name@
    }

    pub fn new(location: &str) -> (r: AppControler)
        ensures
            r.wf(),
            r@.len() == 0,
            r.location_view() == location@,
    {
        AppControler { apps: Vec::new(), location: location.to_owned() }
    }

    /// The root directory of the applications.
    pub fn location(&self) -> (r: &String)
        ensures
            r@ == self.location_view(),
    {
        &self.location
    }

    /// Index of the application called `name`.
    pub fn get_app(&self, name: &str) -> (r: Option<usize>)
        ensures
            match r {
                Some(i) => i < self@.len() && self@[i as int].config.name@ == name@ && forall|j: int|
                    0 <= j < i ==> self@[j].config.name@ != name@,
                None => forall|j: int| 0 <= j < self@.len() ==> self@[j].config.name@ != name@,
            },
    {
        let mut i: usize = 0;
        while i < self.apps.len()
            invariant
                0 <= i <= self@.len(),
                forall|j: int| 0 <= j < i ==> self@[j].config.name@ != name@,
            decreases self@.len() - i,
        {
            if str_eq(self.apps[i].config.name.as_str(), name) {
                return Some(i);
            }
            i = i + 1;
        }
        None
    }

    /// Name and state of every application, in order.
    pub fn status(&self) -> (r: Vec<(String, AppState)>)
        ensures
            r@.len() == self@.len(),
            forall|i: int|
                0 <= i < r@.len() ==> (#[trigger] r@[i]).0@ == self@[i].config.name@ && r@[i].1
                    == self@[i].state,
    {
        let mut out: Vec<(String, AppState)> = Vec::new();
        let mut i: usize = 0;
        while i < self.apps.len()
            invariant
                0 <= i <= self@.len(),
                out@.len() == i,
                forall|j: int|
                    0 <= j < i ==> (#[trigger] out@[j]).0@ == self@[j].config.name@ && out@[j].1
                        == self@[j].state,
            decreases self@.len() - i,
        {
            out.push((self.apps[i].config.name.clone(), self.apps[i].state));
            i = i + 1;
        }
        out
    }

    /// Records the process spawned for application `index`.
    pub fn attach(&mut self, index: usize, pid: u32)
        requires
            old(self).wf(),
        ensures
            final(self).wf(),
            final(self).location_view() == old(self).location_view(),
            final(self)@.len() == old(self)@.len(),
            forall|i: int|
                0 <= i < old(self)@.len() ==> (#[trigger] final(self)@[i]).state == old(self)@[i].state
                    && final(self)@[i].config == old(self)@[i].config,
            index < old(self)@.len() ==> final(self)@[index as int].pid == Some(pid),
    {
        if index < self.apps.len() {
            self.apps[index].attach(pid);
        }
    }

    /// Starts every application that `should_start` selects, and returns the
    /// commands to spawn.
    pub fn start_app(&mut self, after: Option<&str>) -> (r: Vec<(usize, LaunchCommand)>)
        requires
            old(self).wf(),
        ensures
            final(self).wf(),
            final(self).location_view() == old(self).location_view(),
            final(self)@.len() == old(self)@.len(),
            forall|i: int|
                0 <= i < old(self)@.len() ==> {
                    let (a, b) = (old(self)@[i], #[trigger] final(self)@[i]);
                    &&& b.config == a.config
                    &&& b.dir == a.dir
                    &&& b.state == if should_start(a, opt_view(after)) {
                        started(a.state)
                    } else {
                        a.state
                    }
                },
            launches_reported(old(self)@, opt_view(after), r@),
    {
        let mut out: Vec<(usize, LaunchCommand)> = Vec::new();
        let mut i: usize = 0;
        while i < self.apps.len()
            invariant
                0 <= i <= self@.len(),
                self@.len() == old(self)@.len(),
                self.location == old(self).location,
                forall|j: int|
                    0 <= j < old(self)@.len() ==> {
                        let (a, b) = (old(self)@[j], #[trigger] self@[j]);
                        &&& b.config == a.config
                        &&& b.dir == a.dir
                        &&& b.state == if j < i && should_start(a, opt_view(after)) {
                            started(a.state)
                        } else {
                            a.state
                        }
                    },
                forall|k: int|
                    0 <= k < out@.len() ==> {
                        let j = (#[trigger] out@[k]).0 as int;
                        &&& 0 <= j < i
                        &&& should_start(old(self)@[j], opt_view(after)) && launches(old(self)@[j])
                        &&& out@[k].1.program@ == python_runtime()
                        &&& out@[k].1.args@.map_values(|a: String| a@) == old(self)@[j].launch_args()
                    },
                forall|k: int, l: int| 0 <= k < l < out@.len() ==> out@[k].0 < out@[l].0,
                forall|j: int|
                    0 <= j < i && should_start(old(self)@[j], opt_view(after)) && launches(
                        old(self)@[j],
                    ) ==> exists|k: int| 0 <= k < out@.len() && (#[trigger] out@[k]).0 == j,
            decreases self@.len() - i,
        {
            let go = match &self.apps[i].config.after {
                None => after.is_none(),
                Some(a) => match after {
                    Some(n) => str_eq(a.as_str(), n),
                    None => false,
                },
            };
            if go {
                let ghost before = out@;
                match self.apps[i].start() {
                    Some(c) => {
                        out.push((i, c));
                        proof {
                            assert forall|j: int|
                                0 <= j < i + 1 && should_start(old(self)@[j], opt_view(after)) && launches(
                                    old(self)@[j],
                                ) implies exists|k: int| 0 <= k < out@.len() && (#[trigger] out@[k]).0 == j by {
                                if j < i {
                                    let k = choose|k: int| 0 <= k < before.len() && (#[trigger] before[k]).0 == j;
                                    assert(out@[k].0 == j);
                                } else {
                                    assert(out@[before.len() as int].0 == j);
                                }
                            }
                        }
                    },
                    None => {
                        proof {
                            assert forall|j: int|
                                0 <= j < i + 1 && should_start(old(self)@[j], opt_view(after)) && launches(
                                    old(self)@[j],
                                ) implies exists|k: int| 0 <= k < out@.len() && (#[trigger] out@[k]).0 == j by {
                                if j < i {
                                } else {
                                    assert(!launches(old(self)@[j]));
                                }
                            }
                        }
                    },
                }
            }
            i = i + 1;
        }
        out
    }

    /// A node registered: its application (the first with that name) runs,
    /// and the applications waiting for it start.
    pub fn add_node(&mut self, name: &str) -> (r: Vec<(usize, LaunchCommand)>)
        requires
            old(self).wf(),
        ensures
            final(self).wf(),
            final(self).location_view() == old(self).location_view(),
            final(self)@.len() == old(self)@.len(),
            forall|i: int|
                0 <= i < old(self)@.len() ==> {
                    let (a, b) = (old(self)@[i], #[trigger] final(self)@[i]);
                    &&& b.config == a.config
                    &&& b.dir == a.dir
                    &&& a.config.name@ == name@ ==> b.state == AppState::Running
                    &&& a.config.name@ != name@ ==> b.state == if should_start(a, Some(name@)) {
                        started(a.state)
                    } else {
                        a.state
                    }
                },
            launches_reported(with_running(old(self)@, name@), Some(name@), r@),
    {
        let ghost a0 = self@;
        if let Some(i) = self.get_app(name) {
            self.apps[i].set_running();
            proof {
                assert forall|j: int| 0 <= j < a0.len() && j != i implies a0[j].config.name@ != name@ by {
                    if j < i {
                    } else {
                        assert(a0[i as int].config.name@ != a0[j].config.name@);
                    }
                }
            }
        }
        let ghost a1 = self@;
        proof {
            assert forall|j: int| 0 <= j < a0.len() implies a1[j] == with_running(a0, name@)[j] by {
                if a0[j].config.name@ == name@ {
                    assert(a1[j].state == AppState::Running);
                }
            }
            assert(a1 =~= with_running(a0, name@));
            assert(opt_view(Some(name)) == Some(name@));
        }
        let r = self.start_app(Some(name));
        proof {
            assert forall|i: int| 0 <= i < a0.len() implies {
                let (a, b) = (a0[i], #[trigger] self@[i]);
                &&& b.config == a.config
                &&& b.dir == a.dir
                &&& a.config.name@ == name@ ==> b.state == AppState::Running
                &&& a.config.name@ != name@ ==> b.state == if should_start(a, Some(name@)) {
                    started(a.state)
                } else {
                    a.state
                }
            } by {
                assert(self@[i].config == a1[i].config);
                assert(opt_view(Some(name)) == Some(name@));
            }
        }
        r
    }

    /// A node went away: the applications of that name become zombies.
    pub fn remove_node(&mut self, name: &str)
        requires
            old(self).wf(),
        ensures
            final(self).wf(),
            final(self).location_view() == old(self).location_view(),
            final(self)@.len() == old(self)@.len(),
            forall|i: int|
                0 <= i < old(self)@.len() ==> {
                    let (a, b) = (old(self)@[i], #[trigger] final(self)@[i]);
                    &&& b.config == a.config
                    &&& b.dir == a.dir
                    &&& b.state == if a.config.name@ == name@ {
                        AppState::Zombie
                    } else {
                        a.state
                    }
                },
    {
        let mut i: usize = 0;
        while i < self.apps.len()
            invariant
                0 <= i <= self@.len(),
                self@.len() == old(self)@.len(),
                self.location == old(self).location,
                forall|j: int|
                    0 <= j < old(self)@.len() ==> {
                        let (a, b) = (old(self)@[j], #[trigger] self@[j]);
                        &&& b.config == a.config
                        &&& b.dir == a.dir
                        &&& b.state == if j < i && a.config.name@ == name@ {
                            AppState::Zombie
                        } else {
                            a.state
                        }
                    },
            decreases self@.len() - i,
        {
            if str_eq(self.apps[i].config.name.as_str(), name) {
                self.apps[i].set_zombie();
            }
            i = i + 1;
        }
    }

    /// Directory of the application called `name`; `NotFound` otherwise.
    pub fn app_dir(&self, name: &str) -> (r: Result<String, UnicomError>)
        ensures
            match r {
                Ok(d) => exists|i: int|
                    0 <= i < self@.len() && self@[i].config.name@ == name@ && d@ == self@[i].dir@,
                Err(e) => e.kind == UnicomErrorKind::NotFound && forall|j: int|
                    0 <= j < self@.len() ==> self@[j].config.name@ != name@,
            },
    {
        match self.get_app(name) {
            Some(i) => Ok(self.apps[i].dir.clone()),
            None => Err(UnicomError::new(UnicomErrorKind::NotFound, "app not found")),
        }
    }

    /// Stops the application called `name` and returns the process to
    /// interrupt; `NotFound` when there is no such application.
    pub fn stop(&mut self, name: &str) -> (r: Result<Option<u32>, UnicomError>)
        requires
            old(self).wf(),
        ensures
            final(self).wf(),
            final(self).location_view() == old(self).location_view(),
            final(self)@.len() == old(self)@.len(),
            match r {
                Ok(p) => exists|i: int|
                    0 <= i < old(self)@.len() && old(self)@[i].config.name@ == name@ && p == old(
                        self,
                    )@[i].pid && final(self)@ == old(self)@.update(i, final(self)@[i])
                        && final(self)@[i].state == AppState::Stoped && final(self)@[i].pid is None
                        && final(self)@[i].config == old(self)@[i].config,
                Err(e) => e.kind == UnicomErrorKind::NotFound && final(self)@ == old(self)@ && forall|j: int|
                    0 <= j < old(self)@.len() ==> old(self)@[j].config.name@ != name@,
            },
    {
        match self.get_app(name) {
            Some(i) => {
                let p = self.apps[i].stop();
                proof {
                    assert(self@ =~= old(self)@.update(i as int, self@[i as int]));
                }
                Ok(p)
            },
            None => Err(UnicomError::new(UnicomErrorKind::NotFound, "app not found")),
        }
    }

    /// Adds the application of directory `dir`. A second application with
    /// the same name is refused with `ParameterInvalid`, unless `reload`:
    /// then the old one is stopped and replaced, and the new one started.
    pub fn load(&mut self, dir: &str, config: AppConfig, reload: bool) -> (r: Result<LoadOutcome, UnicomError>)
        requires
            old(self).wf(),
        ensures
            final(self).wf(),
            final(self).location_view() == old(self).location_view(),
            match r {
                Ok(o) => {
                    let n = final(self)@.len() - 1;
                    &&& final(self)@[n].config == config
                    &&& final(self)@[n].dir@ == dir@
                    &&& final(self)@[n].state == if reload {
                        AppState::Started
                    } else {
                        AppState::Waiting
                    }
                    &&& reload == (o.launch is Some)
                    &&& (!reload ==> forall|j: int|
                        0 <= j < old(self)@.len() ==> old(self)@[j].config.name@ != config.name@)
                    &&& (o.launch matches Some(l) ==> l.0 == n && l.1.program@ == python_runtime())
                    &&& final(self)@.subrange(0, n) == old(self)@.filter(other_name(config.name@))
                    &&& (o.stopped is Some ==> exists|i: int|
                        0 <= i < old(self)@.len() && old(self)@[i].config.name@ == config.name@
                            && old(self)@[i].pid == o.stopped)
                },
                Err(e) => e.kind == UnicomErrorKind::ParameterInvalid && !reload && final(self)@ == old(
                    self,
                )@ && exists|i: int|
                    0 <= i < old(self)@.len() && old(self)@[i].config.name@ == config.name@,
            },
    {
        let ghost a0 = self@;
        let ghost pred = other_name(config.name@);
        let mut stopped: Option<u32> = None;
        match self.get_app(config.name.as_str()) {
            Some(i) => {
                if !reload {
                    return Err(UnicomError::new(UnicomErrorKind::ParameterInvalid, "app name already exist"));
                }
                let mut old_app = self.apps.remove(i);
                stopped = old_app.stop();
                proof {
                    assert forall|j: int| 0 <= j < a0.len() && j != i implies pred(a0[j]) by {
                        if j < i {
                        } else {
                            assert(a0[i as int].config.name@ != a0[j].config.name@);
                        }
                    }
                    lemma_filter_skip(a0, i as int, pred);
                }
            },
            None => {
                proof {
                    lemma_filter_all(a0, pred);
                }
            },
        }
        let ghost a1 = self@;
        let app = App::new(dir, config);
        self.apps.push(app);
        let n = self.apps.len() - 1;
        let launch = if reload {
            match self.apps[n].start() {
                Some(c) => Some((n, c)),
                None => None,
            }
        } else {
            None
        };
        proof {
            assert(self@.subrange(0, n as int) =~= a1);
            assert forall|i: int, j: int| 0 <= i < j < self@.len() implies self@[i].config.name@
                != self@[j].config.name@ by {
                if j == n {
                    assert(a1.contains(self@[i]));
                    a0.lemma_filter_contains_rev(pred, self@[i]);
                    a0.lemma_filter_pred(pred, i);
                } else {
                    a0.lemma_filter_contains_rev(pred, self@[i]);
                    a0.lemma_filter_contains_rev(pred, self@[j]);
                    lemma_filter_distinct(a0, pred, i, j);
                }
            }
        }
        Ok(LoadOutcome { stopped, launch })
    }

    /// Removes every application, stopping each, and returns the names with
    /// the processes to interrupt, last loaded first.
    pub fn close(&mut self) -> (r: Vec<(String, Option<u32>)>)
        requires
            old(self).wf(),
        ensures
            final(self).wf(),
            final(self)@.len() == 0,
            r@.len() == old(self)@.len(),
            forall|i: int|
                0 <= i < r@.len() ==> {
                    let a = old(self)@[old(self)@.len() - 1 - i];
                    &&& (#[trigger] r@[i]).0@ == a.config.name@
                    &&& r@[i].1 == a.pid
                },
    {
        let mut out: Vec<(String, Option<u32>)> = Vec::new();
        let ghost a0 = self@;
        while self.apps.len() > 0
            invariant
                self@ == a0.subrange(0, a0.len() - out@.len()),
                out@.len() <= a0.len(),
                forall|i: int|
                    0 <= i < out@.len() ==> {
                        let a = a0[a0.len() - 1 - i];
                        &&& (#[trigger] out@[i]).0@ == a.config.name@
                        &&& out@[i].1 == a.pid
                    },
            decreases self@.len(),
        {
            let mut app = self.apps.pop().unwrap();
            let pid = app.stop();
            out.push((app.config.name.clone(), pid));
            proof {
                assert(self@ =~= a0.subrange(0, a0.len() - out@.len()));
            }
        }
        out
    }
}

/// Applications not called `name`, as a predicate.
pub open spec fn other_name(name: Seq<char>) -> spec_fn(App) -> bool {
    |a: App| a.config.name@ != name
}

/// The applications once the node `name` registered: those of that name run.
pub open spec fn with_running(apps: Seq<App>, name: Seq<char>) -> Seq<App> {
    apps.map_values(|a: App| if a.config.name@ == name {
        App { state: AppState::Running, ..a }
    } else {
        a
    })
}

pub open spec fn opt_view(o: Option<&str>) -> Option<Seq<char>> {
    match o {
        Some(s) => Some(s@),
        None => None,
    }
}

proof fn lemma_filter_all(s: Seq<App>, pred: spec_fn(App) -> bool)
    requires
        forall|j: int| 0 <= j < s.len() ==> pred(s[j]),
    ensures
        s.filter(pred) == s,
    decreases s.len(),
{
    reveal(Seq::filter);
    if s.len() > 0 {
        lemma_filter_all(s.drop_last(), pred);
        assert(s.drop_last().push(s.last()) =~= s);
    }
}

proof fn lemma_filter_skip(s: Seq<App>, i: int, pred: spec_fn(App) -> bool)
    requires
        0 <= i < s.len(),
        !pred(s[i]),
        forall|j: int| 0 <= j < s.len() && j != i ==> pred(s[j]),
    ensures
        s.filter(pred) == s.remove(i),
    decreases s.len(),
{
    reveal(Seq::filter);
    if i == s.len() - 1 {
        lemma_filter_all(s.drop_last(), pred);
        assert(s.remove(i) =~= s.drop_last());
    } else {
        lemma_filter_skip(s.drop_last(), i, pred);
        assert(s.remove(i) =~= s.drop_last().remove(i).push(s.last()));
    }
}

proof fn lemma_filter_distinct(s: Seq<App>, pred: spec_fn(App) -> bool, i: int, j: int)
    requires
        forall|a: int, b: int| 0 <= a < b < s.len() ==> s[a].config.name@ != s[b].config.name@,
        0 <= i < j < s.filter(pred).len(),
    ensures
        s.filter(pred)[i].config.name@ != s.filter(pred)[j].config.name@,
    decreases s.len(),
{
    reveal(Seq::filter);
    if s.len() > 0 {
        let t = s.drop_last();
        if pred(s.last()) {
            assert(s.filter(pred) == t.filter(pred).push(s.last()));
            if j < t.filter(pred).len() {
                lemma_filter_distinct(t, pred, i, j);
            } else {
                t.lemma_filter_contains_rev(pred, s.filter(pred)[i]);
                assert(t.filter(pred).contains(s.filter(pred)[i]));
                let k = choose|k: int| 0 <= k < t.len() && t[k] == s.filter(pred)[i];
                assert(s[k] == t[k]);
            }
        } else {
            lemma_filter_distinct(t, pred, i, j);
        }
    }
}

} // verus!
