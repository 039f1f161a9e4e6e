//! The events that drive a session's status, and the commands that write it.

use vstd::prelude::*;

verus! {

/// A status that an event can put a session into.
#[derive(Clone, Copy, Debug, PartialEq, Eq, Structural)]
pub enum HookStatus {
    Running,
    Waiting,
    Idle,
    Error,
}

/// Where a plugin is installed: for sessions on the host, or for sessions
/// inside the sandbox container. The two keep their status files apart.
#[derive(Clone, Copy, Debug, PartialEq, Eq, Structural)]
pub enum HookInstallTarget {
    Host,
    Sandbox,
}

/// An event of the agent, with the status that it stands for once the user's
/// overrides are applied. An event without a status reports nothing.
#[derive(Debug)]
pub struct ResolvedHookEvent {
    pub name: String,
    pub status: Option<HookStatus>,
}

/// The shell commands that write each status, for one target.
#[derive(Debug)]
pub struct StatusCommands {
    pub running: String,
    pub waiting: String,
    pub idle: String,
    pub error: String,
}

/// The canonical status writer: the shell command for each status and target.
#[derive(Debug)]
pub struct StatusWriter {
    pub host: StatusCommands,
    pub sandbox: StatusCommands,
}

impl HookStatus {
    /// The word for the status, as it stands in the status file.
    pub open spec fn word(self) -> Seq<char> {
        match self {
            HookStatus::Running => "running"@,
            HookStatus::Waiting => "waiting"@,
            HookStatus::Idle => "idle"@,
            HookStatus::Error => "error"@,
        }
    }

    /// The word for the status.
    pub fn as_str(self) -> (word: &'static str)
        ensures
            word@ == self.word(),
            self == HookStatus::Running ==> word@ == "running"@,
            self == HookStatus::Waiting ==> word@ == "waiting"@,
            self == HookStatus::Idle ==> word@ == "idle"@,
            self == HookStatus::Error ==> word@ == "error"@,
    {
        match self {
            HookStatus::Running => "running",
            HookStatus::Waiting => "waiting",
            HookStatus::Idle => "idle",
            HookStatus::Error => "error",
        }
    }
}

impl StatusCommands {
    /// The command that writes the status.
    pub open spec fn command(self, status: HookStatus) -> Seq<char> {
        match status {
            HookStatus::Running => self.running@,
            HookStatus::Waiting => self.waiting@,
            HookStatus::Idle => self.idle@,
            HookStatus::Error => self.error@,
        }
    }
}

impl StatusWriter {
    /// The command that writes the status for sessions of the target.
    pub open spec fn command(self, status: HookStatus, target: HookInstallTarget) -> Seq<char> {
        match target {
            HookInstallTarget::Host => self.host.command(status),
            HookInstallTarget::Sandbox => self.sandbox.command(status),
        }
    }
}

/// The command that writes the status for sessions of the target.
pub fn hook_command(writer: &StatusWriter, status: HookStatus, target: HookInstallTarget) -> (command:
    String)
    ensures
        command@ == writer.command(status, target),
        command@ == match (target, status) {
            (HookInstallTarget::Host, HookStatus::Running) => writer.host.running@,
            (HookInstallTarget::Host, HookStatus::Waiting) => writer.host.waiting@,
            (HookInstallTarget::Host, HookStatus::Idle) => writer.host.idle@,
            (HookInstallTarget::Host, HookStatus::Error) => writer.host.error@,
            (HookInstallTarget::Sandbox, HookStatus::Running) => writer.sandbox.running@,
            (HookInstallTarget::Sandbox, HookStatus::Waiting) => writer.sandbox.waiting@,
            (HookInstallTarget::Sandbox, HookStatus::Idle) => writer.sandbox.idle@,
            (HookInstallTarget::Sandbox, HookStatus::Error) => writer.sandbox.error@,
        },
{
    let commands = match target {
        HookInstallTarget::Host => &writer.host,
        HookInstallTarget::Sandbox => &writer.sandbox,
    };
    match status {
        HookStatus::Running => commands.running.clone(),
        HookStatus::Waiting => commands.waiting.clone(),
        HookStatus::Idle => commands.idle.clone(),
        HookStatus::Error => commands.error.clone(),
    }
}

/// Each status of each target has the command that the writer holds in the field
/// of that name.
pub proof fn law_each_status_has_its_own_command(writer: StatusWriter)
    ensures
        writer.command(HookStatus::Running, HookInstallTarget::Host) == writer.host.running@,
        writer.command(HookStatus::Waiting, HookInstallTarget::Host) == writer.host.waiting@,
        writer.command(HookStatus::Idle, HookInstallTarget::Host) == writer.host.idle@,
        writer.command(HookStatus::Error, HookInstallTarget::Host) == writer.host.error@,
        writer.command(HookStatus::Running, HookInstallTarget::Sandbox) == writer.sandbox.running@,
        writer.command(HookStatus::Waiting, HookInstallTarget::Sandbox) == writer.sandbox.waiting@,
        writer.command(HookStatus::Idle, HookInstallTarget::Sandbox) == writer.sandbox.idle@,
        writer.command(HookStatus::Error, HookInstallTarget::Sandbox) == writer.sandbox.error@,
{
}

} // verus!
