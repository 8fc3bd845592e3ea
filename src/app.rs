use vstd::prelude::*;


verus! {

/// Lifecycle of a managed application.
#[derive(Debug, Clone, Copy, PartialEq, Eq, Structural)]
pub enum AppState {
    Waiting,
    Started,
    Running,
    Zombie,
    Stoped,
}

/// How an application is run.
#[derive(Debug)]
pub enum AppType {
    Python { venv: Option<String> },
}

/// The `config.toml` of an application directory.
#[derive(Debug)]
pub struct AppConfig {
    pub name: String,
    pub kind: AppType,
    pub after: Option<String>,
    pub auto_reload: Option<bool>,
}

/// A program and its arguments, to be spawned for an application.
#[derive(Debug)]
pub struct LaunchCommand {
    pub program: String,
    pub args: Vec<String>,
}

/// Program that runs Python applications.
pub open spec fn python_runtime() -> Seq<char> {
    seq!['p', 'y', 't', 'h', 'o', 'n', '-', 'r', 'u', 'n', 't', 'i', 'm', 'e']
}

/// The state after `start`: only a waiting or stopped application moves.
pub open spec fn started(s: AppState) -> AppState {
    match s {
        AppState::Waiting | AppState::Stoped => AppState::Started,
        _ => s,
    }
}

/// A managed application: its configuration, directory, state and process.
#[derive(Debug)]
pub struct App {
    pub config: AppConfig,
    pub dir: String,
    pub auto_reload: bool,
    pub state: AppState,
    pub pid: Option<u32>,
}

impl App {
    pub open spec fn state(&self) -> AppState {
        self.state
    }

    /// Id of the process attached to the application.
    pub open spec fn process(&self) -> Option<u32> {
        self.pid
    }

    /// The arguments of the runtime: the directory, then the venv if any.
    pub open spec fn launch_args(&self) -> Seq<Seq<char>> {
        match self.config.kind {
            AppType::Python { venv } => match venv {
                Some(v) => seq![self.dir@, v@],
                None => seq![self.dir@],
            },
        }
    }

    pub fn new(dir: &str, config: AppConfig) -> (r: App)
        ensures
            r.config == config,
            r.dir@ == dir@,
            r.auto_reload == match config.auto_reload {
                Some(b) => b,
                None => false,
            },
            r.state() == AppState::Waiting,
            r.process() is None,
    {
        let auto_reload = match config.auto_reload {
            Some(b) => b,
            None => false,
        };
        App { config, dir: dir.to_owned(), auto_reload, state: AppState::Waiting, pid: None }
    }

    pub fn get_state(&self) -> (r: AppState)
        ensures
            r == self.state(),
    {
        self.state
    }

    /// The node of this application registered.
    pub fn set_running(&mut self)
        ensures
            final(self).state() == AppState::Running,
            final(self).process() == old(self).process(),
            final(self).config == old(self).config,
            final(self).dir == old(self).dir,
            final(self).auto_reload == old(self).auto_reload,
    {
        self.state = AppState::Running;
    }

    /// The node of this application went away.
    pub fn set_zombie(&mut self)
        ensures
            final(self).state() == AppState::Zombie,
            final(self).process() == old(self).process(),
            final(self).config == old(self).config,
            final(self).dir == old(self).dir,
            final(self).auto_reload == old(self).auto_reload,
    {
        self.state = AppState::Zombie;
    }

    /// Moves a waiting or stopped application to `Started` and returns the
    /// command to spawn; an application already started, running or zombie
    /// is left as it is and nothing is to be spawned.
    pub fn start(&mut self) -> (r: Option<LaunchCommand>)
        ensures
            final(self).state() == started(old(self).state()),
            final(self).process() == old(self).process(),
            final(self).config == old(self).config,
            final(self).dir == old(self).dir,
            final(self).auto_reload == old(self).auto_reload,
            match r {
                Some(c) => (old(self).state() == AppState::Waiting || old(self).state()
                    == AppState::Stoped) && c.program@ == python_runtime() && c.args@.map_values(
                    |a: String| a@,
                ) == old(self).launch_args(),
                None => !(old(self).state() == AppState::Waiting || old(self).state()
                    == AppState::Stoped),
            },
    {
        match self.state {
            AppState::Started | AppState::Running | AppState::Zombie => {
                return None;
            },
            _ => {},
        }
        let mut args: Vec<String> = Vec::new();
        args.push(self.dir.clone());
        match &self.config.kind {
            AppType::Python { venv } => {
                if let Some(v) = venv {
                    args.push(v.clone());
                }
            },
        }
        self.state = AppState::Started;
        let program = String::from_str("python-runtime");
        proof {
            reveal_strlit("python-runtime");
            assert(program@ =~= python_runtime());
            assert(args@.map_values(|a: String| a@) =~= old(self).launch_args());
        }
        Some(LaunchCommand { program, args })
    }

    /// Records the process spawned for the application.
    pub fn attach(&mut self, pid: u32)
        ensures
            final(self).process() == Some(pid),
            final(self).state() == old(self).state(),
            final(self).config == old(self).config,
            final(self).dir == old(self).dir,
    {
        self.pid = Some(pid);
    }

    /// Detaches the process and moves to `Stoped`; the process to interrupt
    /// is returned. Stopping a stopped application changes nothing more.
    pub fn stop(&mut self) -> (r: Option<u32>)
        ensures
            r == old(self).process(),
            final(self).process() is None,
            final(self).state() == AppState::Stoped,
            final(self).config == old(self).config,
            final(self).dir == old(self).dir,
    {
        let pid = self.pid;
        self.pid = None;
        self.state = AppState::Stoped;
        pid
    }
}

/// `start` leaves an application that is started, running or zombie as it
/// is, and `stop` leaves a stopped application stopped.
pub proof fn lemma_start_stop_idempotent(s: AppState)
    ensures
        (s == AppState::Started || s == AppState::Running || s == AppState::Zombie) ==> started(s)
            == s,
        started(started(s)) == started(s),
{
}

} // verus!
