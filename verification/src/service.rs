//! Managed services: their kinds and states, the command that launches one,
//! and the interface the orchestrator drives.
use crate::paths::LaragonPaths;
use vstd::prelude::*;

pub mod coredns;
pub mod mailpit;
pub mod mariadb;
pub mod mongodb;
pub mod nginx;
pub mod php_fpm;
pub mod redis;
pub mod registry;

verus! {

#[derive(Clone, Copy, PartialEq, Eq, Hash, Debug, Structural)]
pub enum ServiceKind {
    Nginx,
    PhpFpm,
    Mariadb,
    Redis,
    Mailpit,
    Coredns,
    Postgres,
    Mongodb,
}

/// How many service kinds there are.
pub const KIND_COUNT: usize = 8;

/// The slot of each kind in per-kind tables.
pub open spec fn kind_index(k: ServiceKind) -> int {
    match k {
        ServiceKind::Nginx => 0,
        ServiceKind::PhpFpm => 1,
        ServiceKind::Mariadb => 2,
        ServiceKind::Redis => 3,
        ServiceKind::Mailpit => 4,
        ServiceKind::Coredns => 5,
        ServiceKind::Postgres => 6,
        ServiceKind::Mongodb => 7,
    }
}

impl ServiceKind {
    /// The slot of this kind in per-kind tables.
    pub fn index(self) -> (i: usize)
        ensures
            i == kind_index(self),
            i < KIND_COUNT,
    {
        match self {
            ServiceKind::Nginx => 0,
            ServiceKind::PhpFpm => 1,
            ServiceKind::Mariadb => 2,
            ServiceKind::Redis => 3,
            ServiceKind::Mailpit => 4,
            ServiceKind::Coredns => 5,
            ServiceKind::Postgres => 6,
            ServiceKind::Mongodb => 7,
        }
    }

    /// The variant's name, as `Debug` prints it.
    pub fn label(self) -> (s: &'static str)
        ensures
            s@ == kind_label(self),
    {
        match self {
            ServiceKind::Nginx => "Nginx",
            ServiceKind::PhpFpm => "PhpFpm",
            ServiceKind::Mariadb => "Mariadb",
            ServiceKind::Redis => "Redis",
            ServiceKind::Mailpit => "Mailpit",
            ServiceKind::Coredns => "Coredns",
            ServiceKind::Postgres => "Postgres",
            ServiceKind::Mongodb => "Mongodb",
        }
    }
}

pub open spec fn kind_label(k: ServiceKind) -> Seq<char> {
    match k {
        ServiceKind::Nginx => "Nginx"@,
        ServiceKind::PhpFpm => "PhpFpm"@,
        ServiceKind::Mariadb => "Mariadb"@,
        ServiceKind::Redis => "Redis"@,
        ServiceKind::Mailpit => "Mailpit"@,
        ServiceKind::Coredns => "Coredns"@,
        ServiceKind::Postgres => "Postgres"@,
        ServiceKind::Mongodb => "Mongodb"@,
    }
}

#[derive(Clone, Copy, PartialEq, Eq, Debug, Structural)]
pub enum ServiceState {
    Stopped,
    Starting,
    Running,
    Stopping,
    Crashed,
}

/// Why a service could not be configured, started, stopped or checked.
#[derive(Debug)]
pub enum ServiceError {
    Io(String),
    Config(String),
    HealthCheck(String),
    Init(String),
}

impl ServiceError {
    /// The message shown to the user.
    pub fn message(&self) -> (m: String)
        ensures
            m@ == match self {
                ServiceError::Io(s) => "io error: "@ + s@,
                ServiceError::Config(s) => "config error: "@ + s@,
                ServiceError::HealthCheck(s) => "health check failed: "@ + s@,
                ServiceError::Init(s) => "init failed: "@ + s@,
            },
    {
        match self {
            ServiceError::Io(s) => crate::text::cat("io error: ", s.as_str()),
            ServiceError::Config(s) => crate::text::cat("config error: ", s.as_str()),
            ServiceError::HealthCheck(s) => crate::text::cat("health check failed: ", s.as_str()),
            ServiceError::Init(s) => crate::text::cat("init failed: ", s.as_str()),
        }
    }
}

/// A fully-specified command to spawn a service process.
#[derive(Debug, Clone, PartialEq, Eq)]
pub struct SpawnSpec {
    pub program: String,
    pub args: Vec<String>,
    pub env: Vec<(String, String)>,
    pub cwd: Option<String>,
}

pub open spec fn arg_views(v: Seq<String>) -> Seq<Seq<char>> {
    v.map_values(|s: String| s@)
}

pub open spec fn env_views(v: Seq<(String, String)>) -> Seq<(Seq<char>, Seq<char>)> {
    v.map_values(|p: (String, String)| (p.0@, p.1@))
}

/// What a spawn spec says, as plain values.
pub struct SpawnView {
    pub program: Seq<char>,
    pub args: Seq<Seq<char>>,
    pub env: Seq<(Seq<char>, Seq<char>)>,
    pub cwd: Option<Seq<char>>,
}

pub open spec fn spawn_view(s: SpawnSpec) -> SpawnView {
    SpawnView {
        program: s.program@,
        args: arg_views(s.args@),
        env: env_views(s.env@),
        cwd: match s.cwd {
            Some(c) => Some(c@),
            None => None,
        },
    }
}

impl SpawnSpec {
    pub fn new(program: &str) -> (s: SpawnSpec)
        ensures
            s.program@ == program@,
            s.args@.len() == 0,
            s.env@.len() == 0,
            s.cwd is None,
    {
        SpawnSpec { program: program.to_string(), args: Vec::new(), env: Vec::new(), cwd: None }
    }

    pub fn arg(self, a: &str) -> (s: SpawnSpec)
        ensures
            s.program@ == self.program@,
            arg_views(s.args@) == arg_views(self.args@).push(a@),
            s.env@ == self.env@,
            s.cwd == self.cwd,
    {
        let mut s = self;
        s.args.push(a.to_string());
        proof {
            assert(arg_views(s.args@) == arg_views(self.args@).push(a@));
        }
        s
    }

    pub fn args(self, items: Vec<String>) -> (s: SpawnSpec)
        ensures
            s.program@ == self.program@,
            arg_views(s.args@) == arg_views(self.args@) + arg_views(items@),
            s.env@ == self.env@,
            s.cwd == self.cwd,
    {
        let ghost given = items@;
        let mut s = self;
        let mut items = items;
        s.args.append(&mut items);
        proof {
            assert(arg_views(s.args@) == arg_views(self.args@) + arg_views(given));
        }
        s
    }

    pub fn env(self, k: &str, v: &str) -> (s: SpawnSpec)
        ensures
            s.program@ == self.program@,
            s.args@ == self.args@,
            env_views(s.env@) == env_views(self.env@).push((k@, v@)),
            s.cwd == self.cwd,
    {
        let mut s = self;
        s.env.push((k.to_string(), v.to_string()));
        proof {
            assert(env_views(s.env@) == env_views(self.env@).push((k@, v@)));
        }
        s
    }

    pub fn cwd(self, dir: String) -> (s: SpawnSpec)
        ensures
            s.program@ == self.program@,
            s.args@ == self.args@,
            s.env@ == self.env@,
            s.cwd == Some(dir),
    {
        let mut s = self;
        s.cwd = Some(dir);
        s
    }

    /// A field-by-field copy.
    pub fn duplicate(&self) -> (r: SpawnSpec)
        ensures
            r.program@ == self.program@,
            arg_views(r.args@) == arg_views(self.args@),
            env_views(r.env@) == env_views(self.env@),
    {
        let mut args: Vec<String> = Vec::new();
        let mut i: usize = 0;
        while i < self.args.len()
            invariant
                0 <= i <= self.args@.len(),
                arg_views(args@) == arg_views(self.args@).take(i as int),
            decreases self.args@.len() - i,
        {
            args.push(self.args[i].clone());
            proof {
                assert(arg_views(self.args@).take(i + 1) == arg_views(self.args@).take(i as int).push(self.args@[i as int]@));
            }
            i = i + 1;
        }
        let mut env: Vec<(String, String)> = Vec::new();
        let mut j: usize = 0;
        while j < self.env.len()
            invariant
                0 <= j <= self.env@.len(),
                env_views(env@) == env_views(self.env@).take(j as int),
            decreases self.env@.len() - j,
        {
            let (k, v) = &self.env[j];
            env.push((k.clone(), v.clone()));
            proof {
                assert(env_views(self.env@).take(j + 1) == env_views(self.env@).take(j as int).push((self.env@[j as int].0@, self.env@[j as int].1@)));
            }
            j = j + 1;
        }
        proof {
            assert(arg_views(self.args@).take(i as int) == arg_views(self.args@));
            assert(env_views(self.env@).take(j as int) == env_views(self.env@));
        }
        let cwd = match &self.cwd {
            Some(d) => Some(d.clone()),
            None => None,
        };
        SpawnSpec { program: self.program.clone(), args, env, cwd }
    }
}

/// A managed service (nginx, php-fpm, mariadb, redis, mailpit, ...). The
/// configuration, initialisation and health methods touch the machine and
/// are implemented by the hosting application.
pub trait Service {
    fn kind(&self) -> ServiceKind;

    fn name(&self) -> &str;

    fn deps(&self) -> Vec<ServiceKind> {
        Vec::new()
    }

    fn write_config(&self, paths: &LaragonPaths) -> Result<(), ServiceError> {
        Ok(())
    }

    fn command(&self, paths: &LaragonPaths) -> SpawnSpec;

    fn health_check(&self, paths: &LaragonPaths) -> Result<(), ServiceError>;

    fn needs_init(&self, paths: &LaragonPaths) -> bool {
        false
    }

    fn init(&self, paths: &LaragonPaths) -> Result<(), ServiceError> {
        Ok(())
    }
}

} // verus!
