//! How the plugin's source is laid out: a fixed text round three lines, which
//! are found by the labels that they start with.

use crate::events::{HookInstallTarget, ResolvedHookEvent, StatusWriter};
use crate::json_text::{is_one_line, lemma_object_is_one_line, object_text};
use crate::render::{group_commands, group_text, plugin_source, source_text, Group};
use crate::render_laws::label;
use crate::template::{
    AOE_PLUGIN_MARKER, BLANK_LINE, DESCRIPTION, GROUP_END, HANDLERS, OPENING,
};
use crate::text::{lemma_occurs_between, occurs_at, occurs_in};
use vstd::prelude::*;

verus! {

/// What precedes the three lines, in every plugin.
pub open spec fn head() -> Seq<char> {
    OPENING@ + AOE_PLUGIN_MARKER@ + DESCRIPTION@ + BLANK_LINE@
}

/// What follows the three lines, in every plugin.
pub open spec fn tail() -> Seq<char> {
    HANDLERS@
}

/// The line of a group, given the JSON text of its commands: the label, that
/// text, a semicolon and the line break.
pub open spec fn group_line(group: Group, json: Seq<char>) -> Seq<char> {
    label(group) + json + GROUP_END@
}

/// A line of the text starts at `at`, and it starts with `start`.
pub open spec fn starts_line(text: Seq<char>, at: int, start: Seq<char>) -> bool {
    &&& occurs_at(start, text, at)
    &&& at == 0 || text[at - 1] == '\n'
}

/// Where the line of a group starts.
pub open spec fn line_position(
    group: Group,
    target: HookInstallTarget,
    events: Seq<ResolvedHookEvent>,
    writer: StatusWriter,
) -> nat {
    let running = group_line(Group::Running, group_text(Group::Running, target, events, writer));
    let idle = group_line(Group::Idle, group_text(Group::Idle, target, events, writer));
    match group {
        Group::Running => head().len(),
        Group::Idle => head().len() + running.len(),
        Group::Other => head().len() + running.len() + idle.len(),
    }
}

/// Every plugin is the same text but for three lines, one for each group and
/// in this order, between a head that carries the ownership marker and a tail.
pub proof fn law_plugin_is_three_lines_in_a_fixed_text(
    target: HookInstallTarget,
    events: Seq<ResolvedHookEvent>,
    writer: StatusWriter,
)
    ensures
        plugin_source(target, events, writer) == head() + group_line(
            Group::Running,
            group_text(Group::Running, target, events, writer),
        ) + group_line(Group::Idle, group_text(Group::Idle, target, events, writer)) + group_line(
            Group::Other,
            group_text(Group::Other, target, events, writer),
        ) + tail(),
        occurs_in(AOE_PLUGIN_MARKER@, head()),
{
    let running = group_text(Group::Running, target, events, writer);
    let idle = group_text(Group::Idle, target, events, writer);
    let other = group_text(Group::Other, target, events, writer);
    assert(source_text(running, idle, other) =~= head() + group_line(Group::Running, running)
        + group_line(Group::Idle, idle) + group_line(Group::Other, other) + tail());
    lemma_occurs_between(OPENING@, AOE_PLUGIN_MARKER@, DESCRIPTION@ + BLANK_LINE@);
    assert(head() =~= OPENING@ + AOE_PLUGIN_MARKER@ + (DESCRIPTION@ + BLANK_LINE@));
}

/// The line of a group is one line: its only line break ends it. Its label is
/// told by the letter after `const `.
proof fn lemma_group_line(group: Group, json: Seq<char>)
    requires
        is_one_line(json),
    ensures
        group_line(group, json).len() > 7,
        group_line(group, json)[0] == 'c',
        group_line(group, json)[6] == label(group)[6],
        forall|i: int|
            0 <= i < group_line(group, json).len() ==> (#[trigger] group_line(group, json)[i]
                == '\n' <==> i == group_line(group, json).len() - 1),
{
    lemma_labels();
    reveal_strlit(";\n");
    let line = group_line(group, json);
    let start = label(group);
    assert forall|i: int| 0 <= i < line.len() implies (#[trigger] line[i] == '\n' <==> i
        == line.len() - 1) by {
        if i < start.len() {
            assert(line[i] == start[i]);
            assert(start[i] >= ' ');
        } else if i < start.len() + json.len() {
            assert(line[i] == json[i - start.len()]);
            assert(json[i - start.len()] >= ' ');
        } else {
            assert(line[i] == GROUP_END@[i - start.len() - json.len()]);
        }
    }
}

/// The three labels differ in one letter.
proof fn lemma_labels()
    ensures
        forall|group: Group|
            (#[trigger] label(group)).len() > 7 && label(group)[0] == 'c' && is_one_line(
                label(group),
            ),
        label(Group::Running)[6] == 'R',
        label(Group::Idle)[6] == 'I',
        label(Group::Other)[6] == 'O',
{
    reveal_strlit("const RUNNING = ");
    reveal_strlit("const IDLE = ");
    reveal_strlit("const OTHER = ");
    assert forall|group: Group|
        (#[trigger] label(group)).len() > 7 && label(group)[0] == 'c' && is_one_line(
            label(group),
        ) by {
        match group {
            Group::Running => {},
            Group::Idle => {},
            Group::Other => {},
        }
    }
}

/// No line of the head starts as a label does, and the head ends a line.
proof fn lemma_head_lines()
    ensures
        head().len() > 0,
        head()[0] == '/',
        head().last() == '\n',
        forall|at: int|
            0 < at < head().len() && head()[at - 1] == '\n' ==> #[trigger] head()[at] != 'c',
{
    reveal_strlit(
        "// Generated by Agent of Empires. Do not edit; changes are overwritten.\n// ",
    );
    reveal_strlit("aoe-opencode-status-plugin:v1");
    reveal_strlit(
        r#"
//
// Reports this opencode session's activity status to AoE. Outside an AoE
// session AOE_INSTANCE_ID is unset, so this registers no handlers at all and
// costs nothing on your own opencode runs.
//
// Delete this file to remove it, or run `aoe uninstall`.
"#,
    );
    reveal_strlit("\n");
    let opened: int = OPENING@.len() as int;
    let marked: int = opened + AOE_PLUGIN_MARKER@.len();
    let described: int = marked + DESCRIPTION@.len();
    assert forall|at: int| 0 < at < head().len() && head()[at - 1] == '\n' implies #[trigger] head()[at]
        != 'c' by {
        assert(at < opened ==> head()[at] == OPENING@[at] && head()[at - 1] == OPENING@[at - 1]);
        assert(opened < at < marked ==> head()[at - 1] == AOE_PLUGIN_MARKER@[at - 1 - opened]);
        assert(marked < at < described ==> head()[at] == DESCRIPTION@[at - marked] && head()[at - 1]
            == DESCRIPTION@[at - 1 - marked]);
    }
}

/// The one line of the tail that starts with `c` goes on otherwise than the
/// labels do, and the tail starts with an empty line.
#[verifier::rlimit(40)]
proof fn lemma_tail_lines(at: int)
    ensures
        tail().len() > 0,
        tail()[0] == '\n',
        0 < at < tail().len() && tail()[at - 1] == '\n' && tail()[at] == 'c' ==> at + 6
            < tail().len() && tail()[at + 6] == 'a',
{
    // Only a literal can be looked into, so it stands here once more.
    reveal_strlit(
        r#"
// Serialized on purpose. Each command is a separate process, and unawaited
// spawns can exit out of order, which would let a stale `running` land after
// the `idle` that followed it and pin the session as busy forever.
let queue = Promise.resolve();
function write(command) {
  queue = queue
    .catch(() => {})
    .then(() =>
      Bun.spawn(["/bin/sh", "-c", command], {
        stdin: "ignore",
        stdout: "ignore",
        stderr: "ignore",
      }).exited,
    );
  return queue;
}

// Session ids with a turn in flight. opencode runs subagents (the task tool)
// as their own sessions that emit their own idle, so idle is only reported once
// every tracked session has gone quiet; otherwise a finished subagent would
// flash the whole session Idle mid-turn.
const active = new Set();

function sessionIdOf(event) {
  return event && event.properties && event.properties.sessionID;
}

// `session.status` carries the status in the payload, so it fans out to one
// key per variant (`session.status:busy` and so on) and each is separately
// overridable through a profile status_map.
function keysFor(event) {
  if (event.type === "session.status") {
    const type = event.properties && event.properties.status && event.properties.status.type;
    return type ? [`session.status:${type}`, event.type] : [event.type];
  }
  return [event.type];
}

function report(keys, sessionId) {
  for (const key of keys) {
    if (key in RUNNING) {
      if (sessionId) active.add(sessionId);
      return write(RUNNING[key]);
    }
    if (key in IDLE) {
      if (sessionId) active.delete(sessionId);
      // A still-busy sibling session means the turn is not over.
      if (active.size > 0) return undefined;
      return write(IDLE[key]);
    }
    if (key in OTHER) return write(OTHER[key]);
  }
  return undefined;
}

// Register nothing outside an AoE session. The writer command bails on an
// unset AOE_INSTANCE_ID too, but that guard is inside the spawned shell, so
// without this early-out every non-AoE opencode run on the machine would still
// fork a process per status transition. AoE injects the variable for opencode
// (status_hook_env_prefix), so its absence means this is not our session.
export const AoeStatus = async () => {
  if (!process.env.AOE_INSTANCE_ID) return {};
  return {
  event: async ({ event }) => {
    try {
      await report(keysFor(event), sessionIdOf(event));
    } catch {
      // Status reporting must never break an opencode event handler.
    }
  },
  "tool.execute.before": async (input) => {
    try {
      await report(["tool.execute.before"], input && input.sessionID);
    } catch {
      // As above.
    }
  },
  };
};
"#,
    );
}

/// The label of a group starts one line of the plugin's source and no other:
/// the line of the group.
pub proof fn law_label_starts_one_line(
    group: Group,
    target: HookInstallTarget,
    events: Seq<ResolvedHookEvent>,
    writer: StatusWriter,
    at: int,
)
    ensures
        starts_line(plugin_source(target, events, writer), at, label(group)) <==> at
            == line_position(group, target, events, writer),
{
    let text = plugin_source(target, events, writer);
    let running = group_line(Group::Running, group_text(Group::Running, target, events, writer));
    let idle = group_line(Group::Idle, group_text(Group::Idle, target, events, writer));
    let other = group_line(Group::Other, group_text(Group::Other, target, events, writer));
    law_plugin_is_three_lines_in_a_fixed_text(target, events, writer);
    lemma_object_is_one_line(group_commands(Group::Running, target, events, writer));
    lemma_object_is_one_line(group_commands(Group::Idle, target, events, writer));
    lemma_object_is_one_line(group_commands(Group::Other, target, events, writer));
    lemma_group_line(Group::Running, group_text(Group::Running, target, events, writer));
    lemma_group_line(Group::Idle, group_text(Group::Idle, target, events, writer));
    lemma_group_line(Group::Other, group_text(Group::Other, target, events, writer));
    lemma_labels();
    lemma_head_lines();
    let first: int = head().len() as int;
    let second: int = first + running.len();
    let third: int = second + idle.len();
    let last: int = third + other.len();
    lemma_tail_lines(at - last);
    lemma_tail_lines(0);
    let start = label(group);
    if starts_line(text, at, start) {
        assert(text.subrange(at, at + start.len())[0] == text[at]);
        assert(text.subrange(at, at + start.len())[6] == text[at + 6]);
        if at < first {
            assert(text[at] == head()[at]);
            assert(at > 0 ==> text[at - 1] == head()[at - 1]);
            assert(false);
        } else if first < at <= second {
            assert(text[at - 1] == running[at - 1 - first]);
        } else if second < at <= third {
            assert(text[at - 1] == idle[at - 1 - second]);
        } else if third < at <= last {
            assert(text[at - 1] == other[at - 1 - third]);
        } else if at > last {
            assert(text[at - 1] == tail()[at - 1 - last]);
            assert(text[at] == tail()[at - last]);
            assert(text[at + 6] == tail()[at + 6 - last]);
            assert(false);
        }
        assert(at == first || at == second || at == third || at == last);
        assert(at == first ==> text[at + 6] == running[6]);
        assert(at == second ==> text[at + 6] == idle[6]);
        assert(at == third ==> text[at + 6] == other[6]);
        assert(at == last ==> text[at] == tail()[0]);
    }
    if at == line_position(group, target, events, writer) {
        assert(text.subrange(at, at + start.len()) =~= start);
        assert(at == first ==> text[at - 1] == head().last());
        assert(at == second ==> text[at - 1] == running[running.len() - 1]);
        assert(at == third ==> text[at - 1] == idle[idle.len() - 1]);
        assert(starts_line(text, at, start));
    }
}

/// The three lines are the JSON objects of the three groups, in this order, each
/// assigned to a constant of its own.
pub proof fn law_lines_are_the_objects_of_the_groups(
    target: HookInstallTarget,
    events: Seq<ResolvedHookEvent>,
    writer: StatusWriter,
)
    ensures
        plugin_source(target, events, writer) == head() + "const RUNNING = "@ + object_text(
            group_commands(Group::Running, target, events, writer),
        ) + ";\n"@ + "const IDLE = "@ + object_text(
            group_commands(Group::Idle, target, events, writer),
        ) + ";\n"@ + "const OTHER = "@ + object_text(
            group_commands(Group::Other, target, events, writer),
        ) + ";\n"@ + tail(),
{
    let running = object_text(group_commands(Group::Running, target, events, writer));
    let idle = object_text(group_commands(Group::Idle, target, events, writer));
    let other = object_text(group_commands(Group::Other, target, events, writer));
    assert(plugin_source(target, events, writer) =~= head() + "const RUNNING = "@ + running
        + ";\n"@ + "const IDLE = "@ + idle + ";\n"@ + "const OTHER = "@ + other + ";\n"@ + tail());
}

} // verus!
