//! What holds of installing and removing, whatever is at the plugin path.

use crate::events::{HookInstallTarget, ResolvedHookEvent, StatusWriter};
use crate::path_laws::{is_clean, law_clean_paths_are_told_by_their_bytes};
use crate::paths::same_path;
use crate::plugin_file::{
    awaits, bytes_of, has_marker, install_decision, next_step, read_bytes, InstallDecision,
    UninstallReply, UninstallStep,
};
use crate::render::{group_text, plugin_source, Group};
use crate::render_laws::law_source_carries_the_marker;
use crate::template::AOE_PLUGIN_MARKER;
use crate::text::{law_occurrence_is_a_stretch, lemma_encode_occurs, lemma_occurs_between};
use vstd::prelude::*;
use vstd::utf8::{encode_utf8, encode_utf8_decode_utf8, encode_utf8_valid_utf8, valid_utf8};

verus! {

/// What the file holds once an installation of the plugin with this source has
/// been carried out.
pub open spec fn after_install(
    exists: bool,
    contents: Option<Seq<u8>>,
    source: Seq<char>,
) -> Option<Seq<u8>> {
    match install_decision(exists, contents, source) {
        InstallDecision::Write => Some(encode_utf8(source)),
        _ => contents,
    }
}

/// How far a removal is from its end.
pub open spec fn steps_left(step: UninstallStep) -> nat {
    match step {
        UninstallStep::Probe => 5,
        UninstallStep::Read => 4,
        UninstallStep::Resolve => 3,
        UninstallStep::RemoveTarget(_) => 2,
        UninstallStep::RemoveLink => 1,
        UninstallStep::Finished(_) => 0,
        UninstallStep::Failed => 0,
    }
}

/// A file that holds a plugin of ours is recognised as ours, whatever the
/// plugin's target, events and commands.
pub proof fn law_plugin_is_recognised(
    target: HookInstallTarget,
    events: Seq<ResolvedHookEvent>,
    writer: StatusWriter,
)
    ensures
        has_marker(Some(encode_utf8(plugin_source(target, events, writer)))),
{
    let source = plugin_source(target, events, writer);
    law_source_carries_the_marker(
        group_text(Group::Running, target, events, writer),
        group_text(Group::Idle, target, events, writer),
        group_text(Group::Other, target, events, writer),
    );
    lemma_encode_occurs(AOE_PLUGIN_MARKER@, source);
    encode_utf8_valid_utf8(source);
}

/// After an installation that was not refused, the file holds the plugin to the
/// byte, and is ours.
pub proof fn law_install_puts_the_plugin_there(
    exists: bool,
    contents: Option<Seq<u8>>,
    target: HookInstallTarget,
    events: Seq<ResolvedHookEvent>,
    writer: StatusWriter,
)
    requires
        !(install_decision(exists, contents, plugin_source(target, events, writer)) is Refuse),
    ensures
        after_install(exists, contents, plugin_source(target, events, writer)) == Some(
            encode_utf8(plugin_source(target, events, writer)),
        ),
        has_marker(after_install(exists, contents, plugin_source(target, events, writer))),
{
    law_plugin_is_recognised(target, events, writer);
}

/// Installing again what is installed writes nothing, so the file's
/// modification time stays.
pub proof fn law_reinstall_writes_nothing(
    exists: bool,
    contents: Option<Seq<u8>>,
    target: HookInstallTarget,
    events: Seq<ResolvedHookEvent>,
    writer: StatusWriter,
)
    requires
        !(install_decision(exists, contents, plugin_source(target, events, writer)) is Refuse),
    ensures
        install_decision(
            true,
            after_install(exists, contents, plugin_source(target, events, writer)),
            plugin_source(target, events, writer),
        ) is Keep,
{
    law_install_puts_the_plugin_there(exists, contents, target, events, writer);
}

/// An installed plugin is replaced by one for other events, another target or
/// other commands: it is never refused, and it is written unless it is the
/// same text.
pub proof fn law_plugin_replaces_plugin(
    target: HookInstallTarget,
    events: Seq<ResolvedHookEvent>,
    writer: StatusWriter,
    source: Seq<char>,
)
    ensures
        install_decision(
            true,
            Some(encode_utf8(plugin_source(target, events, writer))),
            source,
        ) == if source == plugin_source(target, events, writer) {
            InstallDecision::Keep
        } else {
            InstallDecision::Write
        },
{
    law_plugin_is_recognised(target, events, writer);
    encode_utf8_decode_utf8(source);
    encode_utf8_decode_utf8(plugin_source(target, events, writer));
}

/// A file that is not ours is left alone: an installation is refused and
/// changes nothing, and a removal ends without removing anything.
pub proof fn law_foreign_file_is_left_alone(
    path: Seq<u8>,
    contents: Option<Vec<u8>>,
    source: Seq<char>,
)
    requires
        !has_marker(read_bytes(contents)),
    ensures
        install_decision(true, read_bytes(contents), source) is Refuse,
        after_install(true, read_bytes(contents), source) == read_bytes(contents),
        next_step(path, UninstallStep::Probe, UninstallReply::Exists(true)) == UninstallStep::Read,
        next_step(path, UninstallStep::Read, UninstallReply::Contents(contents))
            == UninstallStep::Finished(false),
{
}

/// Where nothing exists at the path, there is nothing to remove, and nothing
/// is refused.
pub proof fn law_nothing_there(path: Seq<u8>, source: Seq<char>)
    ensures
        next_step(path, UninstallStep::Probe, UninstallReply::Exists(false))
            == UninstallStep::Finished(false),
        install_decision(false, None, source) is Write,
{
}

/// What an installation has put there, a removal takes away: it goes on to
/// resolve the path, and then to remove the file.
pub proof fn law_uninstall_undoes_install(
    path: Seq<u8>,
    exists: bool,
    before: Option<Seq<u8>>,
    target: HookInstallTarget,
    events: Seq<ResolvedHookEvent>,
    writer: StatusWriter,
    found: Vec<u8>,
    file: Vec<u8>,
)
    requires
        !(install_decision(exists, before, plugin_source(target, events, writer)) is Refuse),
        Some(found@) == after_install(exists, before, plugin_source(target, events, writer)),
    ensures
        next_step(path, UninstallStep::Probe, UninstallReply::Exists(true)) == UninstallStep::Read,
        next_step(path, UninstallStep::Read, UninstallReply::Contents(Some(found)))
            == UninstallStep::Resolve,
        next_step(path, UninstallStep::Resolve, UninstallReply::Target(Some(file)))
            == UninstallStep::RemoveTarget(file),
{
    law_install_puts_the_plugin_there(exists, before, target, events, writer);
}

/// Both ends of a link go: once the file is removed, the link at the plugin
/// path is removed too where it is another path, and the removal has then
/// succeeded whether or not the link could be removed.
pub proof fn law_both_ends_of_a_link_go(path: Seq<u8>, file: Vec<u8>, link_removed: bool)
    ensures
        !same_path(file@, path) ==> next_step(
            path,
            UninstallStep::RemoveTarget(file),
            UninstallReply::Removed(true),
        ) == UninstallStep::RemoveLink,
        next_step(path, UninstallStep::RemoveLink, UninstallReply::Removed(link_removed))
            == UninstallStep::Finished(true),
        same_path(file@, path) ==> next_step(
            path,
            UninstallStep::RemoveTarget(file),
            UninstallReply::Removed(true),
        ) == UninstallStep::Finished(true),
{
}

/// Nothing but what a marked file leads to is ever removed, the link only
/// after the file, and success is reported only once the file is gone.
pub proof fn law_only_marked_files_are_removed(
    path: Seq<u8>,
    step: UninstallStep,
    reply: UninstallReply,
)
    requires
        awaits(step, reply),
    ensures
        next_step(path, step, reply) is Resolve ==> step is Read && has_marker(
            read_bytes(reply->Contents_0),
        ),
        next_step(path, step, reply) matches UninstallStep::RemoveTarget(file) ==> step is Resolve
            && reply == UninstallReply::Target(Some(file)),
        next_step(path, step, reply) is RemoveLink ==> step is RemoveTarget && reply
            == UninstallReply::Removed(true),
        next_step(path, step, reply) == UninstallStep::Finished(true) ==> (step is RemoveTarget
            && reply == UninstallReply::Removed(true)) || step is RemoveLink,
{
}

/// A removal fails exactly where the path could not be resolved or the file
/// could not be removed.
pub proof fn law_what_fails_a_removal(path: Seq<u8>, step: UninstallStep, reply: UninstallReply)
    requires
        awaits(step, reply),
    ensures
        next_step(path, step, reply) is Failed <==> (step is Resolve && reply
            == UninstallReply::Target(None)) || (step is RemoveTarget && reply
            == UninstallReply::Removed(false)),
{
}

/// A removal comes to an end: every step brings it closer.
pub proof fn law_removal_ends(path: Seq<u8>, step: UninstallStep, reply: UninstallReply)
    requires
        awaits(step, reply),
    ensures
        steps_left(next_step(path, step, reply)) < steps_left(step),
{
}

/// A file counts as ours only where the bytes of the marker stand in it: one that
/// exists and in which they stand nowhere is left alone. An installation is
/// refused, and a removal ends without removing anything.
pub proof fn law_file_without_the_marker_is_left_alone(
    path: Seq<u8>,
    found: Vec<u8>,
    source: Seq<char>,
)
    requires
        forall|at: int|
            0 <= at <= found@.len() - encode_utf8(AOE_PLUGIN_MARKER@).len()
                ==> #[trigger] found@.subrange(at, at + encode_utf8(AOE_PLUGIN_MARKER@).len())
                != encode_utf8(AOE_PLUGIN_MARKER@),
    ensures
        install_decision(true, Some(found@), source) is Refuse,
        next_step(path, UninstallStep::Read, UninstallReply::Contents(Some(found)))
            == UninstallStep::Finished(false),
{
    law_occurrence_is_a_stretch(encode_utf8(AOE_PLUGIN_MARKER@), found@);
}

/// A file that could not be read, or is not UTF-8, is left alone, whatever else
/// stands in it.
pub proof fn law_file_that_is_no_text_is_left_alone(
    path: Seq<u8>,
    contents: Option<Vec<u8>>,
    source: Seq<char>,
)
    requires
        contents is Some ==> !valid_utf8(contents->Some_0@),
    ensures
        contents is Some ==> install_decision(true, Some(contents->Some_0@), source) is Refuse,
        contents is None ==> install_decision(true, None, source) is Refuse,
        next_step(path, UninstallStep::Read, UninstallReply::Contents(contents))
            == UninstallStep::Finished(false),
{
}

/// A text in which the bytes of the marker stand anywhere, whatever is before
/// and behind them, is ours: an installation goes on to write the plugin, unless
/// the text is the plugin already, and a removal goes on to resolve the path.
pub proof fn law_file_with_the_marker_is_ours(
    path: Seq<u8>,
    found: Vec<u8>,
    before: Seq<u8>,
    after: Seq<u8>,
    source: Seq<char>,
)
    requires
        valid_utf8(found@),
        found@ == before + encode_utf8(AOE_PLUGIN_MARKER@) + after,
    ensures
        install_decision(true, Some(found@), source) is Keep <==> found@ == encode_utf8(source),
        install_decision(true, Some(found@), source) is Write <==> found@ != encode_utf8(source),
        next_step(path, UninstallStep::Read, UninstallReply::Contents(Some(found)))
            == UninstallStep::Resolve,
{
    lemma_occurs_between(before, encode_utf8(AOE_PLUGIN_MARKER@), after);
}

/// Where nothing exists at the path, nothing is refused: the plugin is written,
/// unless it was read from there all the same.
pub proof fn law_free_path_is_never_refused(contents: Option<Seq<u8>>, source: Seq<char>)
    ensures
        contents == Some(encode_utf8(source)) ==> install_decision(false, contents, source) is Keep,
        contents != Some(encode_utf8(source)) ==> install_decision(false, contents, source) is Write,
{
}

/// What was read counts by its bytes.
pub proof fn law_what_was_read_is_its_bytes(slice: &[u8], found: Vec<u8>)
    ensures
        bytes_of(Some(slice)) == Some(slice@),
        bytes_of(None) is None,
        read_bytes(Some(found)) == Some(found@),
        read_bytes(None) is None,
{
}

/// Where the path and the file that it leads to are written in their shortest
/// spelling, any difference between the two tells that the path is a link: it is
/// removed too once the file is gone. Where there is none, the removal is done.
pub proof fn law_link_that_differs_anywhere_is_removed(path: Seq<u8>, file: Vec<u8>)
    requires
        is_clean(path),
        is_clean(file@),
    ensures
        file@ != path ==> next_step(
            path,
            UninstallStep::RemoveTarget(file),
            UninstallReply::Removed(true),
        ) == UninstallStep::RemoveLink,
        file@ == path ==> next_step(
            path,
            UninstallStep::RemoveTarget(file),
            UninstallReply::Removed(true),
        ) == UninstallStep::Finished(true),
{
    law_clean_paths_are_told_by_their_bytes(file@, path);
}

/// What a removal is told without having asked for it fails the removal, and one
/// that has ended takes in nothing more.
pub proof fn law_unasked_reply_fails_a_removal(
    path: Seq<u8>,
    step: UninstallStep,
    reply: UninstallReply,
)
    ensures
        step is Probe && !(reply is Exists) ==> next_step(path, step, reply) is Failed,
        step is Read && !(reply is Contents) ==> next_step(path, step, reply) is Failed,
        step is Resolve && !(reply is Target) ==> next_step(path, step, reply) is Failed,
        step is RemoveTarget && !(reply is Removed) ==> next_step(path, step, reply) is Failed,
        step is RemoveLink && !(reply is Removed) ==> next_step(path, step, reply) is Failed,
        step is Finished || step is Failed ==> next_step(path, step, reply) is Failed,
{
}

} // verus!
