//! The text of the plugin: everything in it that does not depend on the events.

use vstd::prelude::*;

verus! {

/// What marks a file as a plugin of ours. A file that lacks it is never
/// overwritten and never removed. It is not the sentinel inside the shell
/// commands: whose the file is must not hinge on a piece of a string literal
/// in it.
pub const AOE_PLUGIN_MARKER: &'static str = "aoe-opencode-status-plugin:v1";

/// What precedes the marker.
pub const OPENING: &'static str = "// Generated by Agent of Empires. Do not edit; changes are overwritten.\n// ";

/// What stands between the marker and the three groups.
pub const DESCRIPTION: &'static str = r#"
//
// Reports this opencode session's activity status to AoE. Outside an AoE
// session AOE_INSTANCE_ID is unset, so this registers no handlers at all and
// costs nothing on your own opencode runs.
//
// Delete this file to remove it, or run `aoe uninstall`.
"#;

/// What sets the groups off from the description.
pub const BLANK_LINE: &'static str = "\n";

/// What precedes the commands of the events that start or continue a turn.
pub const RUNNING_LABEL: &'static str = "const RUNNING = ";

/// What precedes the commands of the events that end a turn.
pub const IDLE_LABEL: &'static str = "const IDLE = ";

/// What precedes the commands of the other events.
pub const OTHER_LABEL: &'static str = "const OTHER = ";

/// What ends the line of a group.
pub const GROUP_END: &'static str = ";\n";

/// What follows the groups: the handlers that turn opencode's events into runs
/// of the commands.
pub const HANDLERS: &'static str = r#"
// Serialized on purpose. Each command is a separate process, and unawaited
// spawns can exit out of order, which would let a stale `running` land after
// the `idle` that followed it and pin the session as busy forever.
let queue = Promise.resolve();
function write(command) {
  queue = queue
    .catch(() => {})
    .then(() =>
      Bun.spawn(["/bin/sh", "-c", command], {
        stdin: "ignore",
        stdout: "ignore",
        stderr: "ignore",
      }).exited,
    );
  return queue;
}

// Session ids with a turn in flight. opencode runs subagents (the task tool)
// as their own sessions that emit their own idle, so idle is only reported once
// every tracked session has gone quiet; otherwise a finished subagent would
// flash the whole session Idle mid-turn.
const active = new Set();

function sessionIdOf(event) {
  return event && event.properties && event.properties.sessionID;
}

// `session.status` carries the status in the payload, so it fans out to one
// key per variant (`session.status:busy` and so on) and each is separately
// overridable through a profile status_map.
function keysFor(event) {
  if (event.type === "session.status") {
    const type = event.properties && event.properties.status && event.properties.status.type;
    return type ? [`session.status:${type}`, event.type] : [event.type];
  }
  return [event.type];
}

function report(keys, sessionId) {
  for (const key of keys) {
    if (key in RUNNING) {
      if (sessionId) active.add(sessionId);
      return write(RUNNING[key]);
    }
    if (key in IDLE) {
      if (sessionId) active.delete(sessionId);
      // A still-busy sibling session means the turn is not over.
      if (active.size > 0) return undefined;
      return write(IDLE[key]);
    }
    if (key in OTHER) return write(OTHER[key]);
  }
  return undefined;
}

// Register nothing outside an AoE session. The writer command bails on an
// unset AOE_INSTANCE_ID too, but that guard is inside the spawned shell, so
// without this early-out every non-AoE opencode run on the machine would still
// fork a process per status transition. AoE injects the variable for opencode
// (status_hook_env_prefix), so its absence means this is not our session.
export const AoeStatus = async () => {
  if (!process.env.AOE_INSTANCE_ID) return {};
  return {
  event: async ({ event }) => {
    try {
      await report(keysFor(event), sessionIdOf(event));
    } catch {
      // Status reporting must never break an opencode event handler.
    }
  },
  "tool.execute.before": async (input) => {
    try {
      await report(["tool.execute.before"], input && input.sessionID);
    } catch {
      // As above.
    }
  },
  };
};
"#;

} // verus!
