//! The plugin's source for a list of events.

use crate::events::{hook_command, HookInstallTarget, HookStatus, ResolvedHookEvent, StatusWriter};
use crate::json::{
    all_strings, insert_string, members, new_object, object_to_text, strings_in,
};
use crate::json_text::object_text;
use crate::template::{
    AOE_PLUGIN_MARKER, BLANK_LINE, DESCRIPTION, GROUP_END, HANDLERS, IDLE_LABEL, OPENING, OTHER_LABEL,
    RUNNING_LABEL,
};
use vstd::prelude::*;

verus! {

/// The groups that the plugin sorts its commands into. Events that start or
/// continue a turn and events that end one also keep count of the turns in
/// flight; the others only report.
#[derive(Clone, Copy, Debug, PartialEq, Eq, Structural)]
pub enum Group {
    Running,
    Idle,
    Other,
}

/// Why a plugin could not be rendered.
#[derive(Debug)]
pub enum RenderError {
    /// The commands of a group could not be written as JSON.
    Json(serde_json::Error),
}

/// The group that an event with the status belongs to.
pub open spec fn group_of(status: HookStatus) -> Group {
    match status {
        HookStatus::Running => Group::Running,
        HookStatus::Idle => Group::Idle,
        HookStatus::Waiting | HookStatus::Error => Group::Other,
    }
}

/// The event belongs to the group.
pub open spec fn in_group(event: ResolvedHookEvent, group: Group) -> bool {
    event.status is Some && group_of(event.status->Some_0) == group
}

/// The commands of a group by event name: that of the event's status, for each
/// event that belongs to the group. Of two events with one name the later one
/// counts.
pub open spec fn group_commands(
    group: Group,
    target: HookInstallTarget,
    events: Seq<ResolvedHookEvent>,
    writer: StatusWriter,
) -> Map<Seq<char>, Seq<char>>
    decreases events.len(),
{
    if events.len() == 0 {
        Map::empty()
    } else {
        let earlier = group_commands(group, target, events.drop_last(), writer);
        let event = events.last();
        if in_group(event, group) {
            earlier.insert(event.name@, writer.command(event.status->Some_0, target))
        } else {
            earlier
        }
    }
}

/// The plugin's source, given the JSON text of each group's commands.
pub open spec fn source_text(running: Seq<char>, idle: Seq<char>, other: Seq<char>) -> Seq<char> {
    OPENING@ + AOE_PLUGIN_MARKER@ + DESCRIPTION@ + BLANK_LINE@ + RUNNING_LABEL@ + running
        + GROUP_END@ + IDLE_LABEL@ + idle + GROUP_END@ + OTHER_LABEL@ + other + GROUP_END@
        + HANDLERS@
}

/// The JSON text of a group's commands.
pub open spec fn group_text(
    group: Group,
    target: HookInstallTarget,
    events: Seq<ResolvedHookEvent>,
    writer: StatusWriter,
) -> Seq<char> {
    object_text(group_commands(group, target, events, writer))
}

/// The plugin's source for the events.
pub open spec fn plugin_source(
    target: HookInstallTarget,
    events: Seq<ResolvedHookEvent>,
    writer: StatusWriter,
) -> Seq<char> {
    source_text(
        group_text(Group::Running, target, events, writer),
        group_text(Group::Idle, target, events, writer),
        group_text(Group::Other, target, events, writer),
    )
}

/// Puts the plugin's source together from the JSON text of each group's
/// commands.
pub fn assemble_source(running: &str, idle: &str, other: &str) -> (source: String)
    ensures
        source@ == source_text(running@, idle@, other@),
{
    let mut source = String::new();
    source.append(OPENING);
    source.append(AOE_PLUGIN_MARKER);
    source.append(DESCRIPTION);
    source.append(BLANK_LINE);
    source.append(RUNNING_LABEL);
    source.append(running);
    source.append(GROUP_END);
    source.append(IDLE_LABEL);
    source.append(idle);
    source.append(GROUP_END);
    source.append(OTHER_LABEL);
    source.append(other);
    source.append(GROUP_END);
    source.append(HANDLERS);
    proof {
        assert(Seq::<char>::empty() + OPENING@ =~= OPENING@);
    }
    source
}

/// The JSON text of an object.
fn group_to_text(object: &serde_json::Map<String, serde_json::Value>) -> (text: Result<
    String,
    RenderError,
>)
    requires
        all_strings(members(*object)),
    ensures
        text is Ok,
        text->Ok_0@ == object_text(strings_in(members(*object))),
{
    match object_to_text(object) {
        Ok(text) => Ok(text),
        Err(error) => Err(RenderError::Json(error)),
    }
}

/// Adds a string to an object of strings.
fn add_command(
    object: &mut serde_json::Map<String, serde_json::Value>,
    name: String,
    command: String,
)
    requires
        all_strings(members(*old(object))),
    ensures
        all_strings(members(*final(object))),
        strings_in(members(*final(object))) == strings_in(members(*old(object))).insert(
            name@,
            command@,
        ),
{
    insert_string(object, name, command);
    assert(strings_in(members(*object)) =~= strings_in(members(*old(object))).insert(
        name@,
        command@,
    ));
}

/// Renders the plugin: a fixed body round the three groups of commands, each
/// written as a JSON object so that no command needs escaping by hand.
pub fn render_opencode_plugin(
    target: HookInstallTarget,
    events: &[ResolvedHookEvent],
    writer: &StatusWriter,
) -> (source: Result<String, RenderError>)
    ensures
        source is Ok,
        source->Ok_0@ == plugin_source(target, events@, *writer),
{
    let mut running = new_object();
    let mut idle = new_object();
    let mut other = new_object();
    let mut i: usize = 0;
    proof {
        let none = Map::<Seq<char>, Seq<char>>::empty();
        assert(strings_in(members(running)) =~= none);
        assert(strings_in(members(idle)) =~= none);
        assert(strings_in(members(other)) =~= none);
    }
    while i < events.len()
        invariant
            i <= events@.len(),
            all_strings(members(running)),
            all_strings(members(idle)),
            all_strings(members(other)),
            strings_in(members(running)) == group_commands(
                Group::Running,
                target,
                events@.take(i as int),
                *writer,
            ),
            strings_in(members(idle)) == group_commands(
                Group::Idle,
                target,
                events@.take(i as int),
                *writer,
            ),
            strings_in(members(other)) == group_commands(
                Group::Other,
                target,
                events@.take(i as int),
                *writer,
            ),
        decreases events@.len() - i,
    {
        let event = &events[i];
        assert(events@.take(i + 1).drop_last() =~= events@.take(i as int));
        if let Some(status) = event.status {
            let command = hook_command(writer, status, target);
            let name = event.name.clone();
            match status {
                HookStatus::Running => add_command(&mut running, name, command),
                HookStatus::Idle => add_command(&mut idle, name, command),
                HookStatus::Waiting | HookStatus::Error => add_command(&mut other, name, command),
            }
        }
        i += 1;
    }
    assert(events@.take(i as int) =~= events@);

    let running_json = match group_to_text(&running) {
        Ok(text) => text,
        Err(error) => return Err(error),
    };
    let idle_json = match group_to_text(&idle) {
        Ok(text) => text,
        Err(error) => return Err(error),
    };
    let other_json = match group_to_text(&other) {
        Ok(text) => text,
        Err(error) => return Err(error),
    };
    Ok(assemble_source(running_json.as_str(), idle_json.as_str(), other_json.as_str()))
}

} // verus!
