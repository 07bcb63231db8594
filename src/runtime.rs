//! Provisioning of the interpreter environment that hosts the vector database, and the
//! startup progress reported while it happens.
use vstd::prelude::*;
use crate::text::{chars_of, push_char, push_text};

verus! {

/// Pinned version of the database package.
pub const SEEKDB_VERSION: &'static str = "0.0.1.dev4";
/// Package index the database package is installed from.
pub const PYPI_INDEX: &'static str = "https://pypi.tuna.tsinghua.edu.cn/simple/";

/// `base` joined with the relative component `part`, one `/` between them.
pub open spec fn join_path(base: Seq<char>, part: Seq<char>) -> Seq<char> {
    if base.len() == 0 {
        part
    } else if base.last() == '/' {
        base + part
    } else {
        base.push('/') + part
    }
}

pub fn join(base: &str, part: &str) -> (r: String)
    ensures
        r@ == join_path(base@, part@),
{
    let b = chars_of(base);
    let mut r = base.to_string();
    if b.len() > 0 && b[b.len() - 1] != '/' {
        push_char(&mut r, '/');
    }
    push_text(&mut r, part);
    proof {
        if b@.len() == 0 {
            assert(r@ =~= part@);
        }
    }
    r
}

/// Relies on `std::path::Path::exists`: whether something is at the path now. The answer
/// depends on the disk, so nothing is promised of it.
#[verifier::external_body]
fn path_exists(p: &str) -> (r: bool) {
    std::path::Path::new(p).exists()
}

#[derive(Debug)]
/// The private interpreter environment under the application's data directory.
pub struct PythonEnv {
    pub venv_dir: String,
    pub python_executable: String,
}

impl PythonEnv {
    /// The environment rooted at `<app_data_dir>/venv`, its interpreter at `bin/python3`.
    pub fn new(app_data_dir: &str) -> (r: PythonEnv)
        ensures
            r.venv_dir@ == join_path(app_data_dir@, "venv"@),
            r.python_executable@ == join_path(join_path(join_path(app_data_dir@, "venv"@), "bin"@), "python3"@),
    {
        let venv_dir = join(app_data_dir, "venv");
        let bin = join(venv_dir.as_str(), "bin");
        let python_executable = join(bin.as_str(), "python3");
        PythonEnv { venv_dir, python_executable }
    }

    /// Whether the environment and its interpreter are on disk.
    pub fn venv_exists(&self) -> bool {
        path_exists(self.venv_dir.as_str()) && path_exists(self.python_executable.as_str())
    }

    /// What to do about the environment: nothing when it is present, else create it.
    pub fn ensure_venv(&self, present: bool) -> (r: ProvisionAction)
        ensures
            present ==> r == ProvisionAction::Nothing,
            !present ==> r == ProvisionAction::CreateVenv,
    {
        if present { ProvisionAction::Nothing } else { ProvisionAction::CreateVenv }
    }

    pub fn get_python_executable(&self) -> (r: &String)
        ensures
            r == &self.python_executable,
    {
        &self.python_executable
    }

    /// The package installer of the environment, `bin/pip3`.
    pub fn get_pip_executable(&self) -> (r: String)
        ensures
            r@ == join_path(join_path(self.venv_dir@, "bin"@), "pip3"@),
    {
        let bin = join(self.venv_dir.as_str(), "bin");
        join(bin.as_str(), "pip3")
    }

    pub fn get_venv_dir(&self) -> (r: &String)
        ensures
            r == &self.venv_dir,
    {
        &self.venv_dir
    }
}

#[derive(Debug)]
/// The database package, installed into an environment.
pub struct SeekDbPackage {
    pub python_executable: String,
}

impl SeekDbPackage {
    pub fn new(python_env: &PythonEnv) -> (r: SeekDbPackage)
        ensures
            r.python_executable == python_env.python_executable,
    {
        SeekDbPackage { python_executable: python_env.python_executable.clone() }
    }

    /// Interpreter arguments that install the pinned package from the configured index.
    pub fn install_args(&self) -> (r: Vec<String>)
        ensures
            r@.len() == 6,
            r@[0]@ == "-m"@,
            r@[1]@ == "pip"@,
            r@[2]@ == "install"@,
            r@[3]@ == "seekdb=="@ + SEEKDB_VERSION@,
            r@[4]@ == "-i"@,
            r@[5]@ == PYPI_INDEX@,
    {
        let mut spec_arg = "seekdb==".to_string();
        push_text(&mut spec_arg, SEEKDB_VERSION);
        let mut v: Vec<String> = Vec::new();
        v.push("-m".to_string());
        v.push("pip".to_string());
        v.push("install".to_string());
        v.push(spec_arg);
        v.push("-i".to_string());
        v.push(PYPI_INDEX.to_string());
        v
    }
}

#[derive(Debug, Clone, Copy, PartialEq, Eq, Structural)]
pub enum ProvisionFailure {
    MissingInterpreter,
    MissingVenvModule,
    NetworkFailure,
    VersionMismatch,
    Other,
}

/// Where provisioning stands. `Ready` lasts for the process's lifetime.
#[derive(Debug, Clone, Copy, PartialEq, Eq, Structural)]
pub enum ProvisionState {
    NotPresent,
    Creating,
    Installing,
    Verifying,
    Ready,
    Failed(ProvisionFailure),
}

/// What the outside world reports back.
#[derive(Debug, Clone, Copy, PartialEq, Eq, Structural)]
pub enum ProvisionEvent {
    /// What a look at the disk found.
    Probed { venv_present: bool, package_present: bool },
    InterpreterMissing,
    VenvCreated { ok: bool, venv_module_missing: bool },
    Installed { ok: bool },
    VersionChecked { matches: bool },
}

/// What to do next.
#[derive(Debug, Clone, Copy, PartialEq, Eq, Structural)]
pub enum ProvisionAction {
    Nothing,
    CreateVenv,
    InstallPackage,
    VerifyVersion,
    Report(ProvisionFailure),
}

pub open spec fn provision_step(s: ProvisionState, e: ProvisionEvent) -> (ProvisionState, ProvisionAction) {
    match s {
        ProvisionState::Ready => (ProvisionState::Ready, ProvisionAction::Nothing),
        ProvisionState::Failed(f) => (s, ProvisionAction::Nothing),
        ProvisionState::NotPresent => match e {
            ProvisionEvent::Probed { venv_present, package_present } =>
                if !venv_present {
                    (ProvisionState::Creating, ProvisionAction::CreateVenv)
                } else if !package_present {
                    (ProvisionState::Installing, ProvisionAction::InstallPackage)
                } else {
                    (ProvisionState::Verifying, ProvisionAction::VerifyVersion)
                },
            ProvisionEvent::InterpreterMissing => (
                ProvisionState::Failed(ProvisionFailure::MissingInterpreter),
                ProvisionAction::Report(ProvisionFailure::MissingInterpreter),
            ),
            _ => (s, ProvisionAction::Nothing),
        },
        ProvisionState::Creating => match e {
            ProvisionEvent::VenvCreated { ok, venv_module_missing } =>
                if ok {
                    (ProvisionState::Installing, ProvisionAction::InstallPackage)
                } else if venv_module_missing {
                    (ProvisionState::Failed(ProvisionFailure::MissingVenvModule), ProvisionAction::Report(ProvisionFailure::MissingVenvModule))
                } else {
                    (ProvisionState::Failed(ProvisionFailure::Other), ProvisionAction::Report(ProvisionFailure::Other))
                },
            ProvisionEvent::InterpreterMissing => (
                ProvisionState::Failed(ProvisionFailure::MissingInterpreter),
                ProvisionAction::Report(ProvisionFailure::MissingInterpreter),
            ),
            _ => (s, ProvisionAction::Nothing),
        },
        ProvisionState::Installing => match e {
            ProvisionEvent::Installed { ok } =>
                if ok {
                    (ProvisionState::Verifying, ProvisionAction::VerifyVersion)
                } else {
                    (ProvisionState::Failed(ProvisionFailure::NetworkFailure), ProvisionAction::Report(ProvisionFailure::NetworkFailure))
                },
            _ => (s, ProvisionAction::Nothing),
        },
        ProvisionState::Verifying => match e {
            ProvisionEvent::VersionChecked { matches } =>
                if matches {
                    (ProvisionState::Ready, ProvisionAction::Nothing)
                } else {
                    (ProvisionState::Failed(ProvisionFailure::VersionMismatch), ProvisionAction::Report(ProvisionFailure::VersionMismatch))
                },
            _ => (s, ProvisionAction::Nothing),
        },
    }
}

/// One step of provisioning: the next state and the action to perform.
pub fn ensure_ready(s: ProvisionState, e: ProvisionEvent) -> (r: (ProvisionState, ProvisionAction))
    ensures
        r == provision_step(s, e),
{
    match s {
        ProvisionState::Ready => (ProvisionState::Ready, ProvisionAction::Nothing),
        ProvisionState::Failed(_) => (s, ProvisionAction::Nothing),
        ProvisionState::NotPresent => match e {
            ProvisionEvent::Probed { venv_present, package_present } =>
                if !venv_present {
                    (ProvisionState::Creating, ProvisionAction::CreateVenv)
                } else if !package_present {
                    (ProvisionState::Installing, ProvisionAction::InstallPackage)
                } else {
                    (ProvisionState::Verifying, ProvisionAction::VerifyVersion)
                },
            ProvisionEvent::InterpreterMissing => (
                ProvisionState::Failed(ProvisionFailure::MissingInterpreter),
                ProvisionAction::Report(ProvisionFailure::MissingInterpreter),
            ),
            _ => (s, ProvisionAction::Nothing),
        },
        ProvisionState::Creating => match e {
            ProvisionEvent::VenvCreated { ok, venv_module_missing } =>
                if ok {
                    (ProvisionState::Installing, ProvisionAction::InstallPackage)
                } else if venv_module_missing {
                    (ProvisionState::Failed(ProvisionFailure::MissingVenvModule), ProvisionAction::Report(ProvisionFailure::MissingVenvModule))
                } else {
                    (ProvisionState::Failed(ProvisionFailure::Other), ProvisionAction::Report(ProvisionFailure::Other))
                },
            ProvisionEvent::InterpreterMissing => (
                ProvisionState::Failed(ProvisionFailure::MissingInterpreter),
                ProvisionAction::Report(ProvisionFailure::MissingInterpreter),
            ),
            _ => (s, ProvisionAction::Nothing),
        },
        ProvisionState::Installing => match e {
            ProvisionEvent::Installed { ok } =>
                if ok {
                    (ProvisionState::Verifying, ProvisionAction::VerifyVersion)
                } else {
                    (ProvisionState::Failed(ProvisionFailure::NetworkFailure), ProvisionAction::Report(ProvisionFailure::NetworkFailure))
                },
            _ => (s, ProvisionAction::Nothing),
        },
        ProvisionState::Verifying => match e {
            ProvisionEvent::VersionChecked { matches } =>
                if matches {
                    (ProvisionState::Ready, ProvisionAction::Nothing)
                } else {
                    (ProvisionState::Failed(ProvisionFailure::VersionMismatch), ProvisionAction::Report(ProvisionFailure::VersionMismatch))
                },
            _ => (s, ProvisionAction::Nothing),
        },
    }
}

/// Provisioning is idempotent: once a step has reached `Ready`, any further step stays there
/// and asks for nothing, so asking again changes nothing.
pub proof fn lemma_ensure_ready_idempotent(s: ProvisionState, e1: ProvisionEvent, e2: ProvisionEvent)
    requires
        provision_step(s, e1).0 == ProvisionState::Ready,
    ensures
        provision_step(provision_step(s, e1).0, e2) == (ProvisionState::Ready, ProvisionAction::Nothing),
        provision_step(provision_step(provision_step(s, e1).0, e2).0, e2) == provision_step(provision_step(s, e1).0, e2),
{
}

#[derive(Debug)]
/// A startup progress report.
pub struct StartupEvent {
    pub step: u32,
    pub total_steps: u32,
    pub message: String,
    /// One of "progress", "success", "error".
    pub status: String,
    pub details: Option<String>,
    pub error: Option<String>,
}

/// Number of startup steps.
pub const STARTUP_STEPS: u32 = 3;

impl StartupEvent {
    pub fn progress(step: u32, message: String) -> (r: StartupEvent)
        ensures
            r.step == step && r.total_steps == STARTUP_STEPS && r.message == message,
            r.status@ == "progress"@ && r.details is None && r.error is None,
    {
        StartupEvent { step, total_steps: STARTUP_STEPS, message, status: "progress".to_string(), details: None, error: None }
    }

    pub fn progress_with_details(step: u32, message: String, details: String) -> (r: StartupEvent)
        ensures
            r.step == step && r.total_steps == STARTUP_STEPS && r.message == message,
            r.status@ == "progress"@ && r.details == Some(details) && r.error is None,
    {
        StartupEvent { step, total_steps: STARTUP_STEPS, message, status: "progress".to_string(), details: Some(details), error: None }
    }

    pub fn success(step: u32, message: String) -> (r: StartupEvent)
        ensures
            r.step == step && r.total_steps == STARTUP_STEPS && r.message == message,
            r.status@ == "success"@ && r.details is None && r.error is None,
    {
        StartupEvent { step, total_steps: STARTUP_STEPS, message, status: "success".to_string(), details: None, error: None }
    }

    pub fn error(message: String, error: String) -> (r: StartupEvent)
        ensures
            r.step == 0 && r.total_steps == STARTUP_STEPS && r.message == message,
            r.status@ == "error"@ && r.details is None && r.error == Some(error),
    {
        StartupEvent { step: 0, total_steps: STARTUP_STEPS, message, status: "error".to_string(), details: None, error: Some(error) }
    }
}

} // verus!
