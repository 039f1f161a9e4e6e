use opencode_hooks::events::{
    hook_command, HookInstallTarget, HookStatus, ResolvedHookEvent, StatusCommands, StatusWriter,
};
use opencode_hooks::render::{assemble_source, render_opencode_plugin};
use opencode_hooks::template::AOE_PLUGIN_MARKER;

const HOST_BASE: &str = "/tmp/aoe-hooks-1000";
const SANDBOX_BASE: &str = "/tmp/aoe-hooks";

fn command(status: HookStatus, base: &str) -> String {
    format!(
        "sh -c 'printf {} > \"{}/$AOE_INSTANCE_ID/status\"' # aoe-hooks",
        status.as_str(),
        base
    )
}

fn commands(base: &str) -> StatusCommands {
    StatusCommands {
        running: command(HookStatus::Running, base),
        waiting: command(HookStatus::Waiting, base),
        idle: command(HookStatus::Idle, base),
        error: command(HookStatus::Error, base),
    }
}

fn writer() -> StatusWriter {
    StatusWriter {
        host: commands(HOST_BASE),
        sandbox: commands(SANDBOX_BASE),
    }
}

fn event(name: &str, status: Option<HookStatus>) -> ResolvedHookEvent {
    ResolvedHookEvent {
        name: name.to_string(),
        status,
    }
}

fn opencode_events() -> Vec<ResolvedHookEvent> {
    vec![
        event("session.status:busy", Some(HookStatus::Running)),
        event("session.status:idle", Some(HookStatus::Idle)),
        event("tool.execute.before", Some(HookStatus::Running)),
        event("permission.asked", Some(HookStatus::Waiting)),
        event("session.error", Some(HookStatus::Error)),
    ]
}

fn line<'a>(rendered: &'a str, start: &str) -> &'a str {
    rendered
        .lines()
        .find(|l| l.starts_with(start))
        .expect("group rendered")
}

#[test]
fn test_render_covers_every_declared_event() {
    let events = opencode_events();
    let rendered = render_opencode_plugin(HookInstallTarget::Host, &events, &writer())
        .expect("render succeeds");
    assert!(rendered.contains(AOE_PLUGIN_MARKER));
    for event in &events {
        assert!(
            rendered.contains(&format!("\"{}\"", event.name)),
            "event {} missing from rendered plugin",
            event.name
        );
    }
    // Every embedded command must be the canonical writer, marker included,
    // so uninstall and the hook-rewrite migrations still recognise it.
    assert!(rendered.contains("# aoe-hooks"));
}

#[test]
fn test_render_bakes_the_target_specific_status_base() {
    let events = opencode_events();
    let host = render_opencode_plugin(HookInstallTarget::Host, &events, &writer()).unwrap();
    let sandbox = render_opencode_plugin(HookInstallTarget::Sandbox, &events, &writer()).unwrap();
    assert!(host.contains(HOST_BASE));
    assert!(sandbox.contains(SANDBOX_BASE));
    assert!(!sandbox.contains(HOST_BASE));
    assert!(!host.contains("/tmp/aoe-hooks/"));
    assert_ne!(host, sandbox);
}

#[test]
fn test_render_applies_status_map_override() {
    let mut events = opencode_events();
    for event in events.iter_mut() {
        if event.name == "permission.asked" {
            event.status = Some(HookStatus::Idle);
        }
    }
    let rendered = render_opencode_plugin(HookInstallTarget::Host, &events, &writer()).unwrap();

    // The overridden event moved from the waiting map into the idle group,
    // which is what changes the plugin's runtime behavior.
    let idle_line = line(&rendered, "const IDLE = ");
    assert!(idle_line.contains("permission.asked"), "{idle_line}");
    let other_line = line(&rendered, "const OTHER = ");
    assert!(!other_line.contains("permission.asked"), "{other_line}");
}

#[test]
fn groups_are_json_objects_on_lines_of_their_own() {
    let writer = StatusWriter {
        host: StatusCommands {
            running: "go \"on\"\\".to_string(),
            waiting: "wait\n\t\r\u{8}\u{c}\u{1}\u{1f}\u{7f}".to_string(),
            idle: "r\u{e9}st".to_string(),
            error: "err".to_string(),
        },
        sandbox: commands(SANDBOX_BASE),
    };
    let events = vec![
        event("b", Some(HookStatus::Running)),
        event("a", Some(HookStatus::Running)),
        event("silent", None),
        event("a", Some(HookStatus::Idle)),
        event("w", Some(HookStatus::Waiting)),
        event("q\"\\", Some(HookStatus::Error)),
    ];
    let rendered = render_opencode_plugin(HookInstallTarget::Host, &events, &writer).unwrap();
    assert_eq!(
        line(&rendered, "const RUNNING = "),
        "const RUNNING = {\"a\":\"go \\\"on\\\"\\\\\",\"b\":\"go \\\"on\\\"\\\\\"};"
    );
    assert_eq!(line(&rendered, "const IDLE = "), "const IDLE = {\"a\":\"r\u{e9}st\"};");
    assert_eq!(
        line(&rendered, "const OTHER = "),
        "const OTHER = {\"q\\\"\\\\\":\"err\",\"w\":\"wait\\n\\t\\r\\b\\f\\u0001\\u001f\u{7f}\"};"
    );
    assert!(!rendered.contains("silent"));
}

#[test]
fn a_plugin_is_three_labelled_lines_in_a_fixed_text() {
    let labels = ["const RUNNING = ", "const IDLE = ", "const OTHER = "];
    let is_group_line = |l: &str| labels.iter().any(|label| l.starts_with(label));
    let bare = render_opencode_plugin(HookInstallTarget::Host, &[], &writer()).unwrap();
    let full = render_opencode_plugin(HookInstallTarget::Sandbox, &opencode_events(), &writer())
        .unwrap();
    for rendered in [&bare, &full] {
        let lines: Vec<&str> = rendered.lines().filter(|l| is_group_line(l)).collect();
        assert_eq!(lines.len(), 3);
        for (line, label) in lines.iter().zip(labels) {
            assert!(line.starts_with(label), "{line}");
        }
    }
    let rest = |rendered: &str| -> Vec<String> {
        rendered.lines().filter(|l| !is_group_line(l)).map(|l| l.to_string()).collect()
    };
    assert_eq!(rest(&bare), rest(&full));
    assert!(rest(&bare).iter().any(|l| l.contains(AOE_PLUGIN_MARKER)));
}

#[test]
fn members_stand_in_the_order_of_their_keys() {
    let writer = StatusWriter {
        host: StatusCommands {
            running: String::new(),
            waiting: String::new(),
            idle: "i".to_string(),
            error: String::new(),
        },
        sandbox: commands(SANDBOX_BASE),
    };
    // U+FFFD precedes U+1F600, though not in UTF-16.
    let events: Vec<ResolvedHookEvent> = ["\u{1f600}", "b", "ab", "\u{fffd}", "a", "", "B"]
        .iter()
        .map(|name| event(name, Some(HookStatus::Idle)))
        .collect();
    let rendered = render_opencode_plugin(HookInstallTarget::Host, &events, &writer).unwrap();
    assert_eq!(
        line(&rendered, "const IDLE = "),
        "const IDLE = {\"\":\"i\",\"B\":\"i\",\"a\":\"i\",\"ab\":\"i\",\"b\":\"i\",\
         \"\u{fffd}\":\"i\",\"\u{1f600}\":\"i\"};"
    );
    assert_eq!(line(&rendered, "const OTHER = "), "const OTHER = {};");
}

#[test]
fn of_two_events_with_one_name_the_later_counts() {
    let events = vec![
        event("e", Some(HookStatus::Waiting)),
        event("e", Some(HookStatus::Error)),
    ];
    let rendered = render_opencode_plugin(HookInstallTarget::Host, &events, &writer()).unwrap();
    let other_line = line(&rendered, "const OTHER = ");
    assert!(other_line.contains("printf error"), "{other_line}");
    assert!(!other_line.contains("printf waiting"), "{other_line}");
}

#[test]
fn a_silent_event_changes_nothing() {
    let mut events = opencode_events();
    let without = render_opencode_plugin(HookInstallTarget::Host, &events, &writer()).unwrap();
    events.insert(2, event("session.created", None));
    let with = render_opencode_plugin(HookInstallTarget::Host, &events, &writer()).unwrap();
    assert_eq!(with, without);
}

#[test]
fn the_commands_of_a_status_and_target_are_picked() {
    let writer = writer();
    assert_eq!(
        hook_command(&writer, HookStatus::Waiting, HookInstallTarget::Sandbox),
        command(HookStatus::Waiting, SANDBOX_BASE)
    );
    assert_eq!(
        hook_command(&writer, HookStatus::Error, HookInstallTarget::Host),
        command(HookStatus::Error, HOST_BASE)
    );
    assert_eq!(HookStatus::Running.as_str(), "running");
    assert_eq!(HookStatus::Waiting.as_str(), "waiting");
    assert_eq!(HookStatus::Idle.as_str(), "idle");
    assert_eq!(HookStatus::Error.as_str(), "error");
}

#[test]
fn groups_go_into_the_source_in_order() {
    let source = assemble_source("R", "I", "O");
    assert!(source.contains("\nconst RUNNING = R;\nconst IDLE = I;\nconst OTHER = O;\n"));
}

#[test]
fn the_plugin_without_events_is_the_fixed_text() {
    let rendered = render_opencode_plugin(HookInstallTarget::Host, &[], &writer()).unwrap();
    assert_eq!(
        rendered,
        r#"// Generated by Agent of Empires. Do not edit; changes are overwritten.
// aoe-opencode-status-plugin:v1
//
// Reports this opencode session's activity status to AoE. Outside an AoE
// session AOE_INSTANCE_ID is unset, so this registers no handlers at all and
// costs nothing on your own opencode runs.
//
// Delete this file to remove it, or run `aoe uninstall`.

const RUNNING = {};
const IDLE = {};
const OTHER = {};

// Serialized on purpose. Each command is a separate process, and unawaited
// spawns can exit out of order, which would let a stale `running` land after
// the `idle` that followed it and pin the session as busy forever.
let queue = Promise.resolve();
function write(command) {
  queue = queue
    .catch(() => {})
    .then(() =>
      Bun.spawn(["/bin/sh", "-c", command], {
        stdin: "ignore",
        stdout: "ignore",
        stderr: "ignore",
      }).exited,
    );
  return queue;
}

// Session ids with a turn in flight. opencode runs subagents (the task tool)
// as their own sessions that emit their own idle, so idle is only reported once
// every tracked session has gone quiet; otherwise a finished subagent would
// flash the whole session Idle mid-turn.
const active = new Set();

function sessionIdOf(event) {
  return event && event.properties && event.properties.sessionID;
}

// `session.status` carries the status in the payload, so it fans out to one
// key per variant (`session.status:busy` and so on) and each is separately
// overridable through a profile status_map.
function keysFor(event) {
  if (event.type === "session.status") {
    const type = event.properties && event.properties.status && event.properties.status.type;
    return type ? [`session.status:${type}`, event.type] : [event.type];
  }
  return [event.type];
}

function report(keys, sessionId) {
  for (const key of keys) {
    if (key in RUNNING) {
      if (sessionId) active.add(sessionId);
      return write(RUNNING[key]);
    }
    if (key in IDLE) {
      if (sessionId) active.delete(sessionId);
      // A still-busy sibling session means the turn is not over.
      if (active.size > 0) return undefined;
      return write(IDLE[key]);
    }
    if (key in OTHER) return write(OTHER[key]);
  }
  return undefined;
}

// Register nothing outside an AoE session. The writer command bails on an
// unset AOE_INSTANCE_ID too, but that guard is inside the spawned shell, so
// without this early-out every non-AoE opencode run on the machine would still
// fork a process per status transition. AoE injects the variable for opencode
// (status_hook_env_prefix), so its absence means this is not our session.
export const AoeStatus = async () => {
  if (!process.env.AOE_INSTANCE_ID) return {};
  return {
  event: async ({ event }) => {
    try {
      await report(keysFor(event), sessionIdOf(event));
    } catch {
      // Status reporting must never break an opencode event handler.
    }
  },
  "tool.execute.before": async (input) => {
    try {
      await report(["tool.execute.before"], input && input.sessionID);
    } catch {
      // As above.
    }
  },
  };
};
"#
    );
}
