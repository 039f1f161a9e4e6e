//! Whose the file at the plugin path is, when it is written, and how it is
//! removed.
//!
//! Reading, writing and removing files is the caller's part. What it found goes
//! in as bytes, and what it is to do comes out.

use crate::events::{HookInstallTarget, ResolvedHookEvent, StatusWriter};
use crate::paths::{is_same_path, same_path};
use crate::render::{plugin_source, render_opencode_plugin, RenderError};
use crate::template::AOE_PLUGIN_MARKER;
use crate::text::{contains_bytes, equal_bytes, occurs_in};
use vstd::prelude::*;
use vstd::utf8::{encode_utf8, valid_utf8};

verus! {

/// What an installation comes to, where it is not refused.
#[derive(Debug)]
pub enum InstallAction {
    /// The file holds the plugin already. It is not written again, so that its
    /// modification time stays.
    UpToDate,
    /// The plugin is to be written to the file, in place of what is there. The
    /// directories above it are made first, where they are missing.
    Write(String),
}

/// Why a plugin is not installed.
#[derive(Debug)]
pub enum InstallError {
    /// The file at the path is someone else's.
    NotOurs,
    /// The plugin could not be rendered.
    Render(RenderError),
}

/// Where a removal stands: what is to be done next, or how it ended.
#[derive(Debug)]
pub enum UninstallStep {
    /// Tell whether anything exists at the plugin path, links followed.
    Probe,
    /// Take the lock of the plugin path, keep it to the end, and read the file.
    Read,
    /// Follow the links at the plugin path to the file they lead to.
    Resolve,
    /// Remove this file, which holds the plugin.
    RemoveTarget(Vec<u8>),
    /// Remove what is at the plugin path itself, a link that leads nowhere now.
    RemoveLink,
    /// Done, and whether a plugin was removed.
    Finished(bool),
    /// Given up: what was told last was a failure, or not what was asked for.
    Failed,
}

/// How what a step asked for came out.
#[derive(Debug)]
pub enum UninstallReply {
    /// Whether anything exists at the plugin path.
    Exists(bool),
    /// What the file holds, if it could be read.
    Contents(Option<Vec<u8>>),
    /// The file that the plugin path leads to, if that could be told.
    Target(Option<Vec<u8>>),
    /// Whether the removal succeeded.
    Removed(bool),
}

/// What is done about a file at installation.
pub enum InstallDecision {
    Refuse,
    Keep,
    Write,
}

/// The bytes that were read, if any.
pub open spec fn bytes_of(contents: Option<&[u8]>) -> Option<Seq<u8>> {
    match contents {
        Some(bytes) => Some(bytes@),
        None => None,
    }
}

/// The file that these contents were read from is ours: it was readable as
/// text, and the text holds the marker.
pub open spec fn has_marker(contents: Option<Seq<u8>>) -> bool {
    &&& contents is Some
    &&& valid_utf8(contents->Some_0)
    &&& occurs_in(encode_utf8(AOE_PLUGIN_MARKER@), contents->Some_0)
}

/// What is done to install the plugin with this source: a file that exists and
/// is not ours is left alone, one that holds the source already is kept, and
/// otherwise the source is written.
pub open spec fn install_decision(
    exists: bool,
    contents: Option<Seq<u8>>,
    source: Seq<char>,
) -> InstallDecision {
    if exists && !has_marker(contents) {
        InstallDecision::Refuse
    } else if contents == Some(encode_utf8(source)) {
        InstallDecision::Keep
    } else {
        InstallDecision::Write
    }
}

/// The reply is one that the step waits for.
pub open spec fn awaits(step: UninstallStep, reply: UninstallReply) -> bool {
    match step {
        UninstallStep::Probe => reply is Exists,
        UninstallStep::Read => reply is Contents,
        UninstallStep::Resolve => reply is Target,
        UninstallStep::RemoveTarget(_) => reply is Removed,
        UninstallStep::RemoveLink => reply is Removed,
        UninstallStep::Finished(_) => false,
        UninstallStep::Failed => false,
    }
}

/// The bytes of a file that was read, if it was.
pub open spec fn read_bytes(contents: Option<Vec<u8>>) -> Option<Seq<u8>> {
    match contents {
        Some(bytes) => Some(bytes@),
        None => None,
    }
}

/// What follows in the removal of the plugin at `path`. Nothing is removed but
/// a file of ours; where the path is a link, the file it leads to goes first
/// and the link after it; and once the file is gone the removal has succeeded,
/// whatever becomes of the link. A reply that the step does not wait for fails
/// the removal.
pub open spec fn next_step(
    path: Seq<u8>,
    step: UninstallStep,
    reply: UninstallReply,
) -> UninstallStep {
    match (step, reply) {
        (UninstallStep::Probe, UninstallReply::Exists(exists)) => if exists {
            UninstallStep::Read
        } else {
            UninstallStep::Finished(false)
        },
        (UninstallStep::Read, UninstallReply::Contents(contents)) => if has_marker(
            read_bytes(contents),
        ) {
            UninstallStep::Resolve
        } else {
            UninstallStep::Finished(false)
        },
        (UninstallStep::Resolve, UninstallReply::Target(Some(target))) => {
            UninstallStep::RemoveTarget(target)
        },
        (UninstallStep::RemoveTarget(target), UninstallReply::Removed(true)) => if same_path(
            target@,
            path,
        ) {
            UninstallStep::Finished(true)
        } else {
            UninstallStep::RemoveLink
        },
        (UninstallStep::RemoveLink, UninstallReply::Removed(_)) => UninstallStep::Finished(true),
        _ => UninstallStep::Failed,
    }
}

/// Calls `std::str::from_utf8`, which succeeds exactly on valid UTF-8.
#[verifier::external_body]
fn is_utf8(bytes: &[u8]) -> (valid: bool)
    ensures
        valid == valid_utf8(bytes@),
{
    std::str::from_utf8(bytes).is_ok()
}

/// Whether a file is ours, by what was read of it. A file that could not be
/// read, or is not text, is not.
pub fn opencode_plugin_has_aoe_marker(contents: Option<&[u8]>) -> (ours: bool)
    ensures
        ours == has_marker(bytes_of(contents)),
        ours ==> contents is Some && valid_utf8(contents->Some_0@) && exists|at: int|
            0 <= at <= contents->Some_0@.len() - encode_utf8(AOE_PLUGIN_MARKER@).len()
                && #[trigger] contents->Some_0@.subrange(
                at,
                at + encode_utf8(AOE_PLUGIN_MARKER@).len(),
            ) == encode_utf8(AOE_PLUGIN_MARKER@),
{
    match contents {
        Some(bytes) => is_utf8(bytes) && contains_bytes(bytes, AOE_PLUGIN_MARKER.as_bytes()),
        None => false,
    }
}

/// Decides what to do to install the plugin at a path, by whether anything
/// exists there and what was read of it.
///
/// The whole file is ours, so it is replaced rather than merged. One that is
/// not is refused: it is someone else's.
pub fn install_opencode_plugin_with_events(
    exists: bool,
    contents: Option<&[u8]>,
    target: HookInstallTarget,
    events: &[ResolvedHookEvent],
    writer: &StatusWriter,
) -> (action: Result<InstallAction, InstallError>)
    ensures
        match install_decision(
            exists,
            bytes_of(contents),
            plugin_source(target, events@, *writer),
        ) {
            InstallDecision::Refuse => action is Err && action->Err_0 is NotOurs,
            InstallDecision::Keep => action is Ok && action->Ok_0 is UpToDate,
            InstallDecision::Write => action is Ok && action->Ok_0 is Write
                && action->Ok_0->Write_0@ == plugin_source(target, events@, *writer),
        },
{
    if exists && !opencode_plugin_has_aoe_marker(contents) {
        return Err(InstallError::NotOurs);
    }
    let rendered = match render_opencode_plugin(target, events, writer) {
        Ok(rendered) => rendered,
        Err(error) => return Err(InstallError::Render(error)),
    };
    if let Some(existing) = contents {
        if equal_bytes(existing, rendered.as_str().as_bytes()) {
            return Ok(InstallAction::UpToDate);
        }
    }
    Ok(InstallAction::Write(rendered))
}

/// What is said where an installation is refused. `path` is the plugin path as
/// it is shown to the user.
pub fn refusal_message(path: &str) -> (message: String)
    ensures
        message@ == "refusing to overwrite "@ + path@ + ": it is not an AoE-generated plugin"@,
{
    let mut message = String::new();
    message.append("refusing to overwrite ");
    message.append(path);
    message.append(": it is not an AoE-generated plugin");
    proof {
        assert(Seq::<char>::empty() + "refusing to overwrite "@ =~= "refusing to overwrite "@);
    }
    message
}

/// One step of removing the plugin at `path`: from what was to be done and how
/// it came out to what is to be done next. A removal starts with
/// `UninstallStep::Probe`. One that is told something it did not ask for has
/// failed.
pub fn uninstall_opencode_plugin(path: &[u8], step: UninstallStep, reply: UninstallReply) -> (next:
    UninstallStep)
    ensures
        next == next_step(path@, step, reply),
{
    match (step, reply) {
        (UninstallStep::Probe, UninstallReply::Exists(exists)) => {
            if exists {
                UninstallStep::Read
            } else {
                UninstallStep::Finished(false)
            }
        },
        (UninstallStep::Read, UninstallReply::Contents(contents)) => {
            let ours = match &contents {
                Some(bytes) => opencode_plugin_has_aoe_marker(Some(bytes.as_slice())),
                None => false,
            };
            if ours {
                UninstallStep::Resolve
            } else {
                UninstallStep::Finished(false)
            }
        },
        (UninstallStep::Resolve, UninstallReply::Target(Some(target))) => {
            UninstallStep::RemoveTarget(target)
        },
        (UninstallStep::RemoveTarget(target), UninstallReply::Removed(true)) => {
            if is_same_path(target.as_slice(), path) {
                UninstallStep::Finished(true)
            } else {
                // The plugin is gone. A link that stays behind is noisy but
                // does no harm.
                UninstallStep::RemoveLink
            }
        },
        (UninstallStep::RemoveLink, UninstallReply::Removed(_)) => UninstallStep::Finished(true),
        _ => UninstallStep::Failed,
    }
}

} // verus!
