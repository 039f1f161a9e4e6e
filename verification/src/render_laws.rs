//! What holds of every rendered plugin.

use crate::events::{HookInstallTarget, HookStatus, ResolvedHookEvent, StatusWriter};
use crate::json_text::{
    all_plain, escaped, is_one_line, lemma_member_is_shown, lemma_nothing_else_is_shown,
    lemma_object_is_one_line, lemma_object_is_told, lemma_plain_run_is_kept,
    lemma_plain_text_is_kept, lemma_same_rest, member_text, object_text, quoted,
};
use crate::render::{
    group_commands, group_of, group_text, in_group, plugin_source, source_text, Group,
};
use crate::template::{
    AOE_PLUGIN_MARKER, BLANK_LINE, DESCRIPTION, GROUP_END, HANDLERS, IDLE_LABEL, OPENING, OTHER_LABEL,
    RUNNING_LABEL,
};
use crate::text::{
    lemma_occurs_between, lemma_occurs_in_part, lemma_occurs_in_transitive, occurs_in,
};
use vstd::prelude::*;

verus! {

/// What precedes the commands of the group in the plugin's source.
pub open spec fn label(group: Group) -> Seq<char> {
    match group {
        Group::Running => RUNNING_LABEL@,
        Group::Idle => IDLE_LABEL@,
        Group::Other => OTHER_LABEL@,
    }
}

/// Event names are given once each.
pub open spec fn names_differ(events: Seq<ResolvedHookEvent>) -> bool {
    forall|i: int, j: int|
        0 <= i < j < events.len() ==> (#[trigger] events[i]).name@ != (#[trigger] events[j]).name@
}

/// The event gets another status.
pub open spec fn overridden(events: Seq<ResolvedHookEvent>, at: int, status: HookStatus) -> Seq<
    ResolvedHookEvent,
> {
    events.update(at, (ResolvedHookEvent { name: events[at].name, status: Some(status) }))
}

/// Every plugin carries the ownership marker, whatever its commands.
pub proof fn law_source_carries_the_marker(running: Seq<char>, idle: Seq<char>, other: Seq<char>)
    ensures
        occurs_in(AOE_PLUGIN_MARKER@, source_text(running, idle, other)),
{
    let after = DESCRIPTION@ + BLANK_LINE@ + RUNNING_LABEL@ + running + GROUP_END@ + IDLE_LABEL@
        + idle + GROUP_END@ + OTHER_LABEL@ + other + GROUP_END@ + HANDLERS@;
    lemma_occurs_between(OPENING@, AOE_PLUGIN_MARKER@, after);
    assert(source_text(running, idle, other) =~= OPENING@ + AOE_PLUGIN_MARKER@ + after);
}

/// What precedes the line of a group, given the texts of the groups.
spec fn before_line(group: Group, running: Seq<char>, idle: Seq<char>) -> Seq<char> {
    let opening = OPENING@ + AOE_PLUGIN_MARKER@ + DESCRIPTION@ + BLANK_LINE@;
    match group {
        Group::Running => opening,
        Group::Idle => opening + RUNNING_LABEL@ + running + GROUP_END@,
        Group::Other => opening + RUNNING_LABEL@ + running + GROUP_END@ + IDLE_LABEL@ + idle
            + GROUP_END@,
    }
}

/// What follows the line of a group, given the texts of the groups.
spec fn after_line(group: Group, idle: Seq<char>, other: Seq<char>) -> Seq<char> {
    match group {
        Group::Running => IDLE_LABEL@ + idle + GROUP_END@ + OTHER_LABEL@ + other + GROUP_END@
            + HANDLERS@,
        Group::Idle => OTHER_LABEL@ + other + GROUP_END@ + HANDLERS@,
        Group::Other => HANDLERS@,
    }
}

/// `text` is `before`, a line with the group's label, its commands and nothing
/// else but what ends the line, then `after`.
pub open spec fn has_line(
    text: Seq<char>,
    before: Seq<char>,
    line: Seq<char>,
    after: Seq<char>,
) -> bool {
    &&& text == before + line + seq!['\n'] + after
    &&& before.len() > 0
    &&& before.last() == '\n'
    &&& is_one_line(line)
}

/// Each group stands on a line of its own: its label, the JSON text of its
/// commands, and a semicolon.
pub proof fn law_each_group_has_its_line(
    group: Group,
    target: HookInstallTarget,
    events: Seq<ResolvedHookEvent>,
    writer: StatusWriter,
)
    ensures
        exists|before: Seq<char>, after: Seq<char>|
            has_line(
                plugin_source(target, events, writer),
                before,
                label(group) + group_text(group, target, events, writer) + seq![';'],
                after,
            ),
{
    let text = plugin_source(target, events, writer);
    let running = group_text(Group::Running, target, events, writer);
    let idle = group_text(Group::Idle, target, events, writer);
    let other = group_text(Group::Other, target, events, writer);
    let commands = group_text(group, target, events, writer);
    let before = before_line(group, running, idle);
    let line = label(group) + commands + seq![';'];
    let after = after_line(group, idle, other);
    reveal_strlit(";\n");
    reveal_strlit("const RUNNING = ");
    reveal_strlit("const IDLE = ");
    reveal_strlit("const OTHER = ");
    reveal_strlit("\n");
    assert(GROUP_END@ =~= seq![';', '\n']);
    assert(text =~= before + line + seq!['\n'] + after);
    lemma_object_is_one_line(group_commands(group, target, events, writer));
    assert(before.last() == '\n');
    assert forall|i: int| 0 <= i < line.len() implies #[trigger] line[i] >= ' ' by {
        if label(group).len() <= i < label(group).len() + commands.len() {
            assert(line[i] == commands[i - label(group).len()]);
        }
    }
    assert(has_line(text, before, line, after));
}

/// The JSON text of each group occurs in the rendering.
proof fn lemma_group_occurs(
    group: Group,
    target: HookInstallTarget,
    events: Seq<ResolvedHookEvent>,
    writer: StatusWriter,
)
    ensures
        occurs_in(
            group_text(group, target, events, writer),
            plugin_source(target, events, writer),
        ),
{
    let text = plugin_source(target, events, writer);
    let running = group_text(Group::Running, target, events, writer);
    let idle = group_text(Group::Idle, target, events, writer);
    let other = group_text(Group::Other, target, events, writer);
    let commands = group_text(group, target, events, writer);
    let before = before_line(group, running, idle) + label(group);
    let after = GROUP_END@ + after_line(group, idle, other);
    lemma_occurs_between(before, commands, after);
    assert(text =~= before + commands + after);
}

/// A group holds exactly the names of the events that belong to it.
pub proof fn law_group_holds_its_events(
    group: Group,
    target: HookInstallTarget,
    events: Seq<ResolvedHookEvent>,
    writer: StatusWriter,
    name: Seq<char>,
)
    ensures
        group_commands(group, target, events, writer).contains_key(name) <==> exists|i: int|
            0 <= i < events.len() && in_group(events[i], group) && (#[trigger] events[i]).name@
                == name,
    decreases events.len(),
{
    if events.len() > 0 {
        let earlier = events.drop_last();
        law_group_holds_its_events(group, target, earlier, writer, name);
        let commands = group_commands(group, target, events, writer);
        if group_commands(group, target, earlier, writer).contains_key(name) {
            let i = choose|i: int|
                0 <= i < earlier.len() && in_group(earlier[i], group) && (
                #[trigger] earlier[i]).name@ == name;
            assert(events[i] == earlier[i]);
        }
        if in_group(events.last(), group) && events.last().name@ == name {
            assert(events[events.len() - 1] == events.last());
        }
        if exists|i: int|
            0 <= i < events.len() && in_group(events[i], group) && (#[trigger] events[i]).name@
                == name {
            let i = choose|i: int|
                0 <= i < events.len() && in_group(events[i], group) && (#[trigger] events[i]).name@
                    == name;
            if i < earlier.len() {
                assert(earlier[i] == events[i]);
            }
        }
    }
}

/// The command that a group gives to an event name is that of the last event
/// of the group with this name.
pub proof fn law_last_event_decides(
    group: Group,
    target: HookInstallTarget,
    events: Seq<ResolvedHookEvent>,
    writer: StatusWriter,
    at: int,
)
    requires
        0 <= at < events.len(),
        in_group(events[at], group),
        forall|j: int|
            at < j < events.len() && in_group(events[j], group) ==> (#[trigger] events[j]).name@
                != events[at].name@,
    ensures
        group_commands(group, target, events, writer).contains_key(events[at].name@),
        group_commands(group, target, events, writer)[events[at].name@] == writer.command(
            events[at].status->Some_0,
            target,
        ),
    decreases events.len(),
{
    let earlier = events.drop_last();
    if at < earlier.len() {
        assert(earlier[at] == events[at]);
        assert forall|j: int| at < j < earlier.len() && in_group(earlier[j], group) implies (
        #[trigger] earlier[j]).name@ != earlier[at].name@ by {
            assert(earlier[j] == events[j]);
        }
        law_last_event_decides(group, target, earlier, writer, at);
        if in_group(events.last(), group) {
            assert(events[events.len() - 1].name@ != events[at].name@);
        }
    }
}

/// In the two groups that stand for one status each, every event has the
/// command of that status, however often its name is given.
pub proof fn law_turn_groups_write_one_status(
    status: HookStatus,
    target: HookInstallTarget,
    events: Seq<ResolvedHookEvent>,
    writer: StatusWriter,
    name: Seq<char>,
)
    requires
        status == HookStatus::Running || status == HookStatus::Idle,
        group_commands(group_of(status), target, events, writer).contains_key(name),
    ensures
        group_commands(group_of(status), target, events, writer)[name] == writer.command(
            status,
            target,
        ),
    decreases events.len(),
{
    if events.len() > 0 {
        let earlier = events.drop_last();
        if group_commands(group_of(status), target, earlier, writer).contains_key(name) {
            law_turn_groups_write_one_status(status, target, earlier, writer, name);
        }
    }
}

/// Every event that has a status is in the rendering, by its name, together
/// with the command that its group gives to that name.
pub proof fn law_every_event_is_covered(
    target: HookInstallTarget,
    events: Seq<ResolvedHookEvent>,
    writer: StatusWriter,
    at: int,
)
    requires
        0 <= at < events.len(),
        events[at].status is Some,
    ensures
        occurs_in(quoted(events[at].name@), plugin_source(target, events, writer)),
        occurs_in(
            member_text(
                events[at].name@,
                group_commands(
                    group_of(events[at].status->Some_0),
                    target,
                    events,
                    writer,
                )[events[at].name@],
            ),
            plugin_source(target, events, writer),
        ),
{
    let text = plugin_source(target, events, writer);
    let name = events[at].name@;
    let group = group_of(events[at].status->Some_0);
    let commands = group_commands(group, target, events, writer);
    assert(in_group(events[at], group));
    law_group_holds_its_events(group, target, events, writer, name);
    let member = member_text(name, commands[name]);
    lemma_group_is_finite(group, target, events, writer);
    lemma_member_is_shown(commands, name);
    lemma_group_occurs(group, target, events, writer);
    lemma_occurs_in_transitive(member, group_text(group, target, events, writer), text);
    let value = seq![':'] + quoted(commands[name]);
    lemma_occurs_between(Seq::empty(), quoted(name), value);
    assert(Seq::<char>::empty() + quoted(name) + value =~= member);
    lemma_occurs_in_transitive(quoted(name), member, text);
}

/// An event name that needs no escape stands in the rendering between quotes,
/// as it is.
pub proof fn law_plain_names_are_kept(
    target: HookInstallTarget,
    events: Seq<ResolvedHookEvent>,
    writer: StatusWriter,
    at: int,
)
    requires
        0 <= at < events.len(),
        events[at].status is Some,
        all_plain(events[at].name@),
    ensures
        occurs_in(
            seq!['"'] + events[at].name@ + seq!['"'],
            plugin_source(target, events, writer),
        ),
{
    let name = events[at].name@;
    law_every_event_is_covered(target, events, writer, at);
    lemma_plain_text_is_kept(name);
}

/// Commands are baked into the rendering: whatever stands in the command of an
/// event and needs no escape (a path, a sentinel comment) stands in the
/// rendering.
pub proof fn law_commands_are_baked_in(
    target: HookInstallTarget,
    events: Seq<ResolvedHookEvent>,
    writer: StatusWriter,
    group: Group,
    name: Seq<char>,
    run: Seq<char>,
)
    requires
        group_commands(group, target, events, writer).contains_key(name),
        occurs_in(run, group_commands(group, target, events, writer)[name]),
        all_plain(run),
    ensures
        occurs_in(run, plugin_source(target, events, writer)),
{
    let text = plugin_source(target, events, writer);
    let commands = group_commands(group, target, events, writer);
    let command = commands[name];
    let member = member_text(name, command);
    lemma_plain_run_is_kept(run, command);
    let before = quoted(name) + seq![':'] + seq!['"'];
    lemma_occurs_in_part(run, before, escaped(command), seq!['"']);
    assert(before + escaped(command) + seq!['"'] =~= member);
    lemma_group_is_finite(group, target, events, writer);
    lemma_member_is_shown(commands, name);
    lemma_occurs_in_transitive(run, member, object_text(commands));
    lemma_group_occurs(group, target, events, writer);
    lemma_occurs_in_transitive(run, object_text(commands), text);
}

/// The plugin for a target bakes in what all of the target's commands hold and
/// needs no escape, such as the directory of the target's status files, as soon
/// as any event has a status.
pub proof fn law_target_is_baked_in(
    target: HookInstallTarget,
    events: Seq<ResolvedHookEvent>,
    writer: StatusWriter,
    base: Seq<char>,
    at: int,
)
    requires
        forall|status: HookStatus| occurs_in(base, #[trigger] writer.command(status, target)),
        all_plain(base),
        0 <= at < events.len(),
        events[at].status is Some,
    ensures
        occurs_in(base, plugin_source(target, events, writer)),
{
    let group = group_of(events[at].status->Some_0);
    assert(in_group(events[at], group));
    let last = lemma_last_of_name(group, events, at);
    law_last_event_decides(group, target, events, writer, last);
    law_commands_are_baked_in(target, events, writer, group, events[last].name@, base);
}

/// Where no name is given twice, no name is in two groups.
pub proof fn law_groups_are_apart(
    target: HookInstallTarget,
    events: Seq<ResolvedHookEvent>,
    writer: StatusWriter,
    name: Seq<char>,
    group: Group,
    group2: Group,
)
    requires
        names_differ(events),
        group_commands(group, target, events, writer).contains_key(name),
        group_commands(group2, target, events, writer).contains_key(name),
    ensures
        group == group2,
{
    law_group_holds_its_events(group, target, events, writer, name);
    law_group_holds_its_events(group2, target, events, writer, name);
    let i = choose|i: int|
        0 <= i < events.len() && in_group(events[i], group) && (#[trigger] events[i]).name@ == name;
    let j = choose|j: int|
        0 <= j < events.len() && in_group(events[j], group2) && (#[trigger] events[j]).name@
            == name;
    if i < j {
        assert(events[i].name@ != events[j].name@);
    }
    if j < i {
        assert(events[j].name@ != events[i].name@);
    }
}

/// An override moves an event, and nothing else: the event is then in the group
/// of its new status and in no other, and every other name is in the groups
/// that it was in.
pub proof fn law_override_moves_the_event(
    target: HookInstallTarget,
    events: Seq<ResolvedHookEvent>,
    writer: StatusWriter,
    at: int,
    status: HookStatus,
    group: Group,
    name: Seq<char>,
)
    requires
        0 <= at < events.len(),
        names_differ(events),
    ensures
        name == events[at].name@ ==> (group_commands(
            group,
            target,
            overridden(events, at, status),
            writer,
        ).contains_key(name) <==> group == group_of(status)),
        name != events[at].name@ ==> (group_commands(
            group,
            target,
            overridden(events, at, status),
            writer,
        ).contains_key(name) <==> group_commands(group, target, events, writer).contains_key(name)),
{
    let changed = overridden(events, at, status);
    law_group_holds_its_events(group, target, changed, writer, name);
    law_group_holds_its_events(group, target, events, writer, name);
    assert(changed[at].name@ == events[at].name@);
    if name == events[at].name@ {
        assert forall|i: int| 0 <= i < changed.len() && i != at implies (
        #[trigger] changed[i]).name@ != name by {
            assert(changed[i] == events[i]);
            if i < at {
                assert(events[i].name@ != events[at].name@);
            } else {
                assert(events[at].name@ != events[i].name@);
            }
        }
    } else {
        if group_commands(group, target, changed, writer).contains_key(name) {
            let i = choose|i: int|
                0 <= i < changed.len() && in_group(changed[i], group) && (
                #[trigger] changed[i]).name@ == name;
            assert(events[i] == changed[i]);
        }
        if group_commands(group, target, events, writer).contains_key(name) {
            let i = choose|i: int|
                0 <= i < events.len() && in_group(events[i], group) && (#[trigger] events[i]).name@
                    == name;
            assert(changed[i] == events[i]);
        }
    }
}

/// An event without a status leaves no trace: with or without it the plugin is
/// the same.
pub proof fn law_silent_events_leave_no_trace(
    target: HookInstallTarget,
    events: Seq<ResolvedHookEvent>,
    writer: StatusWriter,
    at: int,
)
    requires
        0 <= at < events.len(),
        events[at].status is None,
    ensures
        plugin_source(target, events.remove(at), writer) == plugin_source(target, events, writer),
{
    lemma_silent_event(Group::Running, target, events, writer, at);
    lemma_silent_event(Group::Idle, target, events, writer, at);
    lemma_silent_event(Group::Other, target, events, writer, at);
}

proof fn lemma_silent_event(
    group: Group,
    target: HookInstallTarget,
    events: Seq<ResolvedHookEvent>,
    writer: StatusWriter,
    at: int,
)
    requires
        0 <= at < events.len(),
        events[at].status is None,
    ensures
        group_commands(group, target, events.remove(at), writer) == group_commands(
            group,
            target,
            events,
            writer,
        ),
    decreases events.len(),
{
    if at == events.len() - 1 {
        assert(events.remove(at) =~= events.drop_last());
    } else {
        let earlier = events.drop_last();
        lemma_silent_event(group, target, earlier, writer, at);
        assert(events.remove(at).drop_last() =~= earlier.remove(at));
        assert(events.remove(at).last() == events.last());
    }
}

/// A one-line text and what follows it are told apart by the end of the line.
proof fn lemma_line_ends_once(
    left: Seq<char>,
    left_rest: Seq<char>,
    right: Seq<char>,
    right_rest: Seq<char>,
)
    requires
        is_one_line(left),
        is_one_line(right),
        left + (GROUP_END@ + left_rest) == right + (GROUP_END@ + right_rest),
    ensures
        left == right,
        left_rest == right_rest,
{
    reveal_strlit(";\n");
    let whole = left + (GROUP_END@ + left_rest);
    assert(whole[left.len() as int + 1] == '\n');
    assert(whole[right.len() as int + 1] == '\n');
    assert(whole[left.len() as int] == ';');
    assert(whole[right.len() as int] == ';');
    if left.len() < right.len() {
        assert(left.len() + 1 == right.len() || whole[left.len() as int + 1] == right[left.len() as int
            + 1]);
        assert(false);
    }
    if right.len() < left.len() {
        assert(right.len() + 1 == left.len() || whole[right.len() as int + 1]
            == left[right.len() as int + 1]);
        assert(false);
    }
    assert(left =~= whole.take(left.len() as int));
    assert(right =~= whole.take(right.len() as int));
    let skipped = left.len() as int + GROUP_END@.len();
    assert(left_rest =~= whole.skip(skipped));
    assert(right_rest =~= whole.skip(skipped));
}

/// The plugin's source gives back the text of each group.
pub proof fn law_source_tells_groups_apart(
    running: Seq<char>,
    idle: Seq<char>,
    other: Seq<char>,
    running2: Seq<char>,
    idle2: Seq<char>,
    other2: Seq<char>,
)
    requires
        is_one_line(running) && is_one_line(idle) && is_one_line(other),
        is_one_line(running2) && is_one_line(idle2) && is_one_line(other2),
        source_text(running, idle, other) == source_text(running2, idle2, other2),
    ensures
        running == running2,
        idle == idle2,
        other == other2,
{
    let start = OPENING@ + AOE_PLUGIN_MARKER@ + DESCRIPTION@ + BLANK_LINE@ + RUNNING_LABEL@;
    let tail = HANDLERS@;
    let rest = IDLE_LABEL@ + (idle + (GROUP_END@ + (OTHER_LABEL@ + (other + (GROUP_END@
        + tail)))));
    let rest2 = IDLE_LABEL@ + (idle2 + (GROUP_END@ + (OTHER_LABEL@ + (other2 + (GROUP_END@
        + tail)))));
    assert(source_text(running, idle, other) =~= start + (running + (GROUP_END@ + rest)));
    assert(source_text(running2, idle2, other2) =~= start + (running2 + (GROUP_END@ + rest2)));
    lemma_same_rest(start, running + (GROUP_END@ + rest), running2 + (GROUP_END@ + rest2));
    lemma_line_ends_once(running, rest, running2, rest2);
    let last = OTHER_LABEL@ + (other + (GROUP_END@ + tail));
    let last2 = OTHER_LABEL@ + (other2 + (GROUP_END@ + tail));
    lemma_same_rest(IDLE_LABEL@, idle + (GROUP_END@ + last), idle2 + (GROUP_END@ + last2));
    lemma_line_ends_once(idle, last, idle2, last2);
    lemma_same_rest(OTHER_LABEL@, other + (GROUP_END@ + tail), other2 + (GROUP_END@ + tail));
    lemma_line_ends_once(other, tail, other2, tail);
}

proof fn lemma_group_is_finite(
    group: Group,
    target: HookInstallTarget,
    events: Seq<ResolvedHookEvent>,
    writer: StatusWriter,
)
    ensures
        group_commands(group, target, events, writer).dom().finite(),
    decreases events.len(),
{
    if events.len() > 0 {
        lemma_group_is_finite(group, target, events.drop_last(), writer);
    }
}

/// Two plugins are the same text only where every group gives every event the
/// same command.
pub proof fn law_plugins_tell_commands_apart(
    target: HookInstallTarget,
    events: Seq<ResolvedHookEvent>,
    writer: StatusWriter,
    target2: HookInstallTarget,
    events2: Seq<ResolvedHookEvent>,
    writer2: StatusWriter,
    group: Group,
)
    requires
        plugin_source(target, events, writer) == plugin_source(target2, events2, writer2),
    ensures
        group_commands(group, target, events, writer) == group_commands(
            group,
            target2,
            events2,
            writer2,
        ),
{
    lemma_object_is_one_line(group_commands(Group::Running, target, events, writer));
    lemma_object_is_one_line(group_commands(Group::Idle, target, events, writer));
    lemma_object_is_one_line(group_commands(Group::Other, target, events, writer));
    lemma_object_is_one_line(group_commands(Group::Running, target2, events2, writer2));
    lemma_object_is_one_line(group_commands(Group::Idle, target2, events2, writer2));
    lemma_object_is_one_line(group_commands(Group::Other, target2, events2, writer2));
    law_source_tells_groups_apart(
        group_text(Group::Running, target, events, writer),
        group_text(Group::Idle, target, events, writer),
        group_text(Group::Other, target, events, writer),
        group_text(Group::Running, target2, events2, writer2),
        group_text(Group::Idle, target2, events2, writer2),
        group_text(Group::Other, target2, events2, writer2),
    );
    lemma_group_is_finite(group, target, events, writer);
    lemma_group_is_finite(group, target2, events2, writer2);
    lemma_object_is_told(
        group_commands(group, target, events, writer),
        group_commands(group, target2, events2, writer2),
    );
}

/// A group's line names no events but its own: a run of more than two
/// characters, none of them a quote, that stands in the group's JSON text
/// stands in the name of an event of the group or in the command that the
/// group gives it, as JSON writes them.
pub proof fn law_line_shows_its_group_only(
    group: Group,
    target: HookInstallTarget,
    events: Seq<ResolvedHookEvent>,
    writer: StatusWriter,
    run: Seq<char>,
)
    requires
        run.len() > 2,
        !run.contains('"'),
        occurs_in(run, group_text(group, target, events, writer)),
    ensures
        exists|i: int|
            0 <= i < events.len() && in_group(events[i], group) && (occurs_in(
                run,
                escaped((#[trigger] events[i]).name@),
            ) || occurs_in(
                run,
                escaped(group_commands(group, target, events, writer)[events[i].name@]),
            )),
{
    let commands = group_commands(group, target, events, writer);
    lemma_group_is_finite(group, target, events, writer);
    let name = lemma_nothing_else_is_shown(commands, run);
    law_group_holds_its_events(group, target, events, writer, name);
    let i = choose|i: int|
        0 <= i < events.len() && in_group(events[i], group) && (#[trigger] events[i]).name@ == name;
    assert(in_group(events[i], group));
}

/// The last event of the group with the same name as the event at `at`.
proof fn lemma_last_of_name(group: Group, events: Seq<ResolvedHookEvent>, at: int) -> (last: int)
    requires
        0 <= at < events.len(),
        in_group(events[at], group),
    ensures
        at <= last < events.len(),
        in_group(events[last], group),
        events[last].name@ == events[at].name@,
        forall|j: int|
            last < j < events.len() && in_group(events[j], group) ==> (#[trigger] events[j]).name@
                != events[last].name@,
    decreases events.len() - at,
{
    if exists|j: int|
        at < j < events.len() && in_group(events[j], group) && (#[trigger] events[j]).name@
            == events[at].name@ {
        let j = choose|j: int|
            at < j < events.len() && in_group(events[j], group) && (#[trigger] events[j]).name@
                == events[at].name@;
        lemma_last_of_name(group, events, j)
    } else {
        at
    }
}

/// A plugin for the host and one for the sandbox are different texts, where
/// the writer has different commands for the two and any event has a status.
pub proof fn law_targets_render_apart(
    events: Seq<ResolvedHookEvent>,
    writer: StatusWriter,
    at: int,
)
    requires
        forall|status: HookStatus| #[trigger]
            writer.command(status, HookInstallTarget::Host) != writer.command(
                status,
                HookInstallTarget::Sandbox,
            ),
        0 <= at < events.len(),
        events[at].status is Some,
    ensures
        plugin_source(HookInstallTarget::Host, events, writer) != plugin_source(
            HookInstallTarget::Sandbox,
            events,
            writer,
        ),
{
    let host = HookInstallTarget::Host;
    let sandbox = HookInstallTarget::Sandbox;
    if plugin_source(host, events, writer) == plugin_source(sandbox, events, writer) {
        let group = group_of(events[at].status->Some_0);
        assert(in_group(events[at], group));
        let last = lemma_last_of_name(group, events, at);
        law_plugins_tell_commands_apart(host, events, writer, sandbox, events, writer, group);
        law_last_event_decides(group, host, events, writer, last);
        law_last_event_decides(group, sandbox, events, writer, last);
        assert(false);
    }
}

/// Some event of this name has this status.
pub open spec fn gives(
    events: Seq<ResolvedHookEvent>,
    name: Seq<char>,
    status: HookStatus,
) -> bool {
    exists|i: int|
        0 <= i < events.len() && (#[trigger] events[i]).name@ == name && events[i].status == Some(
            status,
        )
}

/// The group for running turns holds the names of the events that have the
/// running status, and gives each the target's running command.
pub proof fn law_running_group_runs_the_running_command(
    target: HookInstallTarget,
    events: Seq<ResolvedHookEvent>,
    writer: StatusWriter,
    name: Seq<char>,
)
    ensures
        group_commands(Group::Running, target, events, writer).contains_key(name) <==> gives(
            events,
            name,
            HookStatus::Running,
        ),
        gives(events, name, HookStatus::Running) ==> group_commands(
            Group::Running,
            target,
            events,
            writer,
        )[name] == match target {
            HookInstallTarget::Host => writer.host.running@,
            HookInstallTarget::Sandbox => writer.sandbox.running@,
        },
{
    law_group_holds_its_events(Group::Running, target, events, writer, name);
    if gives(events, name, HookStatus::Running) {
        let i = choose|i: int|
            0 <= i < events.len() && (#[trigger] events[i]).name@ == name && events[i].status
                == Some(HookStatus::Running);
        assert(in_group(events[i], Group::Running));
        law_turn_groups_write_one_status(HookStatus::Running, target, events, writer, name);
    }
}

/// The group for ended turns holds the names of the events that have the idle
/// status, and gives each the target's idle command.
pub proof fn law_idle_group_runs_the_idle_command(
    target: HookInstallTarget,
    events: Seq<ResolvedHookEvent>,
    writer: StatusWriter,
    name: Seq<char>,
)
    ensures
        group_commands(Group::Idle, target, events, writer).contains_key(name) <==> gives(
            events,
            name,
            HookStatus::Idle,
        ),
        gives(events, name, HookStatus::Idle) ==> group_commands(
            Group::Idle,
            target,
            events,
            writer,
        )[name] == match target {
            HookInstallTarget::Host => writer.host.idle@,
            HookInstallTarget::Sandbox => writer.sandbox.idle@,
        },
{
    law_group_holds_its_events(Group::Idle, target, events, writer, name);
    if gives(events, name, HookStatus::Idle) {
        let i = choose|i: int|
            0 <= i < events.len() && (#[trigger] events[i]).name@ == name && events[i].status
                == Some(HookStatus::Idle);
        assert(in_group(events[i], Group::Idle));
        law_turn_groups_write_one_status(HookStatus::Idle, target, events, writer, name);
    }
}

/// The remaining group holds the names of the events that have the waiting or
/// the error status.
pub proof fn law_other_group_holds_the_other_statuses(
    target: HookInstallTarget,
    events: Seq<ResolvedHookEvent>,
    writer: StatusWriter,
    name: Seq<char>,
)
    ensures
        group_commands(Group::Other, target, events, writer).contains_key(name) <==> gives(
            events,
            name,
            HookStatus::Waiting,
        ) || gives(events, name, HookStatus::Error),
{
    law_group_holds_its_events(Group::Other, target, events, writer, name);
    if group_commands(Group::Other, target, events, writer).contains_key(name) {
        let i = choose|i: int|
            0 <= i < events.len() && in_group(events[i], Group::Other) && (
            #[trigger] events[i]).name@ == name;
        assert(events[i].status == Some(HookStatus::Waiting) || events[i].status == Some(
            HookStatus::Error,
        ));
    }
    if gives(events, name, HookStatus::Waiting) {
        let i = choose|i: int|
            0 <= i < events.len() && (#[trigger] events[i]).name@ == name && events[i].status
                == Some(HookStatus::Waiting);
        assert(in_group(events[i], Group::Other));
    }
    if gives(events, name, HookStatus::Error) {
        let i = choose|i: int|
            0 <= i < events.len() && (#[trigger] events[i]).name@ == name && events[i].status
                == Some(HookStatus::Error);
        assert(in_group(events[i], Group::Other));
    }
}

/// The event is the last of its name that has the waiting or the error status.
pub open spec fn is_last_other(events: Seq<ResolvedHookEvent>, at: int) -> bool {
    &&& 0 <= at < events.len()
    &&& events[at].status == Some(HookStatus::Waiting) || events[at].status == Some(
        HookStatus::Error,
    )
    &&& forall|j: int|
        at < j < events.len() && (#[trigger] events[j]).name@ == events[at].name@
            ==> events[j].status != Some(HookStatus::Waiting) && events[j].status != Some(
            HookStatus::Error,
        )
}

/// The remaining group gives an event name the target's waiting or error
/// command, by the status of the last event of this name that has either.
pub proof fn law_other_group_runs_the_last_command(
    target: HookInstallTarget,
    events: Seq<ResolvedHookEvent>,
    writer: StatusWriter,
    at: int,
)
    requires
        is_last_other(events, at),
    ensures
        group_commands(Group::Other, target, events, writer).contains_key(events[at].name@),
        group_commands(Group::Other, target, events, writer)[events[at].name@]
            == if events[at].status == Some(HookStatus::Waiting) {
            match target {
                HookInstallTarget::Host => writer.host.waiting@,
                HookInstallTarget::Sandbox => writer.sandbox.waiting@,
            }
        } else {
            match target {
                HookInstallTarget::Host => writer.host.error@,
                HookInstallTarget::Sandbox => writer.sandbox.error@,
            }
        },
{
    assert(in_group(events[at], Group::Other));
    law_last_event_decides(Group::Other, target, events, writer, at);
}

/// An event with the running or the idle status stands in the rendering by its
/// name, together with the command that the writer has for this status and
/// target; so does one that is the last of its name with another status.
pub proof fn law_event_is_shown_with_its_command(
    target: HookInstallTarget,
    events: Seq<ResolvedHookEvent>,
    writer: StatusWriter,
    at: int,
)
    requires
        0 <= at < events.len(),
        events[at].status == Some(HookStatus::Running) || events[at].status == Some(
            HookStatus::Idle,
        ) || is_last_other(events, at),
    ensures
        occurs_in(
            member_text(
                events[at].name@,
                match (target, events[at].status->Some_0) {
                    (HookInstallTarget::Host, HookStatus::Running) => writer.host.running@,
                    (HookInstallTarget::Host, HookStatus::Waiting) => writer.host.waiting@,
                    (HookInstallTarget::Host, HookStatus::Idle) => writer.host.idle@,
                    (HookInstallTarget::Host, HookStatus::Error) => writer.host.error@,
                    (HookInstallTarget::Sandbox, HookStatus::Running) => writer.sandbox.running@,
                    (HookInstallTarget::Sandbox, HookStatus::Waiting) => writer.sandbox.waiting@,
                    (HookInstallTarget::Sandbox, HookStatus::Idle) => writer.sandbox.idle@,
                    (HookInstallTarget::Sandbox, HookStatus::Error) => writer.sandbox.error@,
                },
            ),
            plugin_source(target, events, writer),
        ),
{
    law_every_event_is_covered(target, events, writer, at);
    let name = events[at].name@;
    if events[at].status == Some(HookStatus::Running) {
        assert(gives(events, name, HookStatus::Running));
        law_running_group_runs_the_running_command(target, events, writer, name);
    } else if events[at].status == Some(HookStatus::Idle) {
        assert(gives(events, name, HookStatus::Idle));
        law_idle_group_runs_the_idle_command(target, events, writer, name);
    } else {
        law_other_group_runs_the_last_command(target, events, writer, at);
    }
}

} // verus!
