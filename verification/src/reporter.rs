//! What the plugin's handlers make of opencode's events.
//!
//! The handlers themselves are JavaScript, in `template::HANDLERS`, since
//! opencode loads nothing else. This is their rule, step for step, as a
//! function of the same groups of commands that a rendering bakes in: which
//! command an event runs, and which sessions have a turn in flight after it.
//! The two are kept in step by hand.
//!
//! The handlers look names up with `in`, which finds those that every
//! JavaScript object has (`toString` and the like) in any group. An event that
//! goes by one of them counts as part of a turn, and what is handed to the
//! shell is then no command.

use crate::events::{hook_command, HookInstallTarget, HookStatus, ResolvedHookEvent, StatusWriter};
use crate::render::{group_commands, in_group, Group};
use crate::text::equal_bytes;
use vstd::prelude::*;
use vstd::utf8::encode_utf8_decode_utf8;

verus! {

/// The kind of the event whose payload tells the status.
pub const STATUS_EVENT: &'static str = "session.status";

/// What stands between the kind of the event and the status that it tells.
pub const STATUS_SEPARATOR: &'static str = ":";

/// The sessions with a turn in flight.
///
/// opencode runs a subagent as a session of its own, which ends its turn while
/// that of its parent goes on.
pub struct Reporter {
    active: Vec<String>,
}

/// What an event hands to the shell.
#[derive(Debug, PartialEq, Eq)]
pub enum Report {
    /// Nothing.
    Nothing,
    /// This command.
    Command(String),
    /// What every JavaScript object has under the event's name, which is no
    /// command.
    NotACommand,
}

/// What an event hands to the shell, as text.
pub enum Handed {
    Nothing,
    Command(Seq<char>),
    NotACommand,
}

impl Report {
    /// What is handed to the shell, as text.
    pub open spec fn view(&self) -> Handed {
        match self {
            Report::Nothing => Handed::Nothing,
            Report::Command(command) => Handed::Command(command@),
            Report::NotACommand => Handed::NotACommand,
        }
    }
}

/// The name under which a JavaScript object has its prototype. Written in an
/// object literal with a string, it gives the object no member.
pub const PROTOTYPE_NAME: &'static str = "__proto__";

/// The names that every JavaScript object has.
pub open spec fn is_inherited(name: Seq<char>) -> bool {
    ||| name == PROTOTYPE_NAME@
    ||| name == "constructor"@
    ||| name == "hasOwnProperty"@
    ||| name == "isPrototypeOf"@
    ||| name == "propertyIsEnumerable"@
    ||| name == "toLocaleString"@
    ||| name == "toString"@
    ||| name == "valueOf"@
    ||| name == "__defineGetter__"@
    ||| name == "__defineSetter__"@
    ||| name == "__lookupGetter__"@
    ||| name == "__lookupSetter__"@
}

/// The texts of the strings.
pub open spec fn strings_view(strings: Seq<String>) -> Seq<Seq<char>> {
    strings.map_values(|string: String| string@)
}

/// A value that is there and not empty.
pub open spec fn present(value: Option<&str>) -> Option<Seq<char>> {
    match value {
        Some(text) => if text@.len() > 0 {
            Some(text@)
        } else {
            None
        },
        None => None,
    }
}

/// The names that an event goes by, the most telling first. One that tells a
/// status goes by its kind and the status before it goes by its kind, so that
/// each status can be mapped by itself.
pub open spec fn event_keys(kind: Seq<char>, status: Option<Seq<char>>) -> Seq<Seq<char>> {
    if kind == STATUS_EVENT@ && status is Some {
        seq![STATUS_EVENT@ + STATUS_SEPARATOR@ + status->Some_0, kind]
    } else {
        seq![kind]
    }
}

/// The sessions with a turn in flight once the session has one.
pub open spec fn with_session(active: Set<Seq<char>>, session: Option<Seq<char>>) -> Set<
    Seq<char>,
> {
    match session {
        Some(id) => active.insert(id),
        None => active,
    }
}

/// The sessions with a turn in flight once the session has none.
pub open spec fn without_session(active: Set<Seq<char>>, session: Option<Seq<char>>) -> Set<
    Seq<char>,
> {
    match session {
        Some(id) => active.remove(id),
        None => active,
    }
}

/// The commands of the three groups, by event name.
pub struct GroupMaps {
    pub running: Map<Seq<char>, Seq<char>>,
    pub idle: Map<Seq<char>, Seq<char>>,
    pub other: Map<Seq<char>, Seq<char>>,
}

/// The commands of the three groups for the events.
pub open spec fn group_maps(
    target: HookInstallTarget,
    events: Seq<ResolvedHookEvent>,
    writer: StatusWriter,
) -> GroupMaps {
    GroupMaps {
        running: group_commands(Group::Running, target, events, writer),
        idle: group_commands(Group::Idle, target, events, writer),
        other: group_commands(Group::Other, target, events, writer),
    }
}

/// The first of the names that is found in a group, and that group. Of the
/// groups that have a name, the one for running turns goes first and the one
/// for ended turns second. A name that every object has is found in the first.
pub open spec fn deciding(keys: Seq<Seq<char>>, maps: GroupMaps) -> Option<(Group, Seq<char>)>
    decreases keys.len(),
{
    if keys.len() == 0 {
        None
    } else if is_inherited(keys[0]) || maps.running.contains_key(keys[0]) {
        Some((Group::Running, keys[0]))
    } else if maps.idle.contains_key(keys[0]) {
        Some((Group::Idle, keys[0]))
    } else if maps.other.contains_key(keys[0]) {
        Some((Group::Other, keys[0]))
    } else {
        deciding(keys.drop_first(), maps)
    }
}

/// What the group for running turns has under a name that is found in it: its
/// command, or what every object has there.
pub open spec fn running_entry(key: Seq<char>, maps: GroupMaps) -> Handed {
    if maps.running.contains_key(key) && key != PROTOTYPE_NAME@ {
        Handed::Command(maps.running[key])
    } else {
        Handed::NotACommand
    }
}

/// What an event does that goes by these names and belongs to this session:
/// which sessions have a turn in flight after it, and what it hands to the
/// shell.
///
/// An event that starts or continues a turn always reports. One that ends a
/// turn reports only where no other session has a turn in flight. Any other
/// event reports and leaves the sessions as they are. One that is in no group
/// does nothing.
pub open spec fn reaction(
    active: Set<Seq<char>>,
    keys: Seq<Seq<char>>,
    session: Option<Seq<char>>,
    maps: GroupMaps,
) -> (Set<Seq<char>>, Handed) {
    match deciding(keys, maps) {
        Some((Group::Running, key)) => (with_session(active, session), running_entry(key, maps)),
        Some((Group::Idle, key)) => {
            let left = without_session(active, session);
            if left == Set::<Seq<char>>::empty() {
                (left, Handed::Command(maps.idle[key]))
            } else {
                (left, Handed::Nothing)
            }
        },
        Some((Group::Other, key)) => (active, Handed::Command(maps.other[key])),
        None => (active, Handed::Nothing),
    }
}

/// Whether the plugin registers any handlers: only in a session of ours, which
/// has an instance id.
pub fn registers_handlers(instance_id: Option<&str>) -> (registers: bool)
    ensures
        registers == present(instance_id) is Some,
        registers <==> instance_id is Some && instance_id->Some_0@.len() > 0,
{
    match instance_id {
        Some(id) => !id.is_empty(),
        None => false,
    }
}

/// The names that an event of this kind goes by, with the status that its
/// payload tells, if any.
pub fn keys_for(kind: &str, status: Option<&str>) -> (keys: Vec<String>)
    ensures
        strings_view(keys@) == event_keys(kind@, present(status)),
{
    let mut keys: Vec<String> = Vec::new();
    if let Some(status) = status {
        if is_same_text(kind, STATUS_EVENT) && !status.is_empty() {
            let mut key = String::new();
            key.append(STATUS_EVENT);
            key.append(STATUS_SEPARATOR);
            key.append(status);
            assert(key@ =~= STATUS_EVENT@ + STATUS_SEPARATOR@ + status@);
            keys.push(key);
        }
    }
    keys.push(kind.to_owned());
    assert(strings_view(keys@) =~= event_keys(kind@, present(status)));
    keys
}

/// Whether two texts are the same.
fn is_same_text(left: &str, right: &str) -> (same: bool)
    ensures
        same == (left@ == right@),
{
    proof {
        encode_utf8_decode_utf8(left@);
        encode_utf8_decode_utf8(right@);
    }
    equal_bytes(left.as_bytes(), right.as_bytes())
}

/// Whether every JavaScript object has the name.
fn is_inherited_name(name: &str) -> (inherited: bool)
    ensures
        inherited == is_inherited(name@),
{
    is_same_text(name, PROTOTYPE_NAME) || is_same_text(name, "constructor") || is_same_text(
        name,
        "hasOwnProperty",
    ) || is_same_text(name, "isPrototypeOf") || is_same_text(name, "propertyIsEnumerable")
        || is_same_text(name, "toLocaleString") || is_same_text(name, "toString") || is_same_text(
        name,
        "valueOf",
    ) || is_same_text(name, "__defineGetter__") || is_same_text(name, "__defineSetter__")
        || is_same_text(name, "__lookupGetter__") || is_same_text(name, "__lookupSetter__")
}

/// Whether the event belongs to the group.
fn is_in_group(event: &ResolvedHookEvent, group: Group) -> (belongs: bool)
    ensures
        belongs == in_group(*event, group),
{
    match event.status {
        Some(status) => match status {
            HookStatus::Running => group == Group::Running,
            HookStatus::Idle => group == Group::Idle,
            HookStatus::Waiting | HookStatus::Error => group == Group::Other,
        },
        None => false,
    }
}

/// The command that the group gives to the event name, if any.
pub fn command_for(
    group: Group,
    target: HookInstallTarget,
    events: &[ResolvedHookEvent],
    writer: &StatusWriter,
    key: &str,
) -> (command: Option<String>)
    ensures
        command is Some == group_commands(group, target, events@, *writer).contains_key(key@),
        command is Some ==> command->Some_0@ == group_commands(
            group,
            target,
            events@,
            *writer,
        )[key@],
{
    let mut left: usize = events.len();
    assert(events@.take(left as int) =~= events@);
    while left > 0
        invariant
            left <= events@.len(),
            group_commands(group, target, events@, *writer).contains_key(key@) == group_commands(
                group,
                target,
                events@.take(left as int),
                *writer,
            ).contains_key(key@),
            group_commands(group, target, events@, *writer).contains_key(key@) ==> group_commands(
                group,
                target,
                events@,
                *writer,
            )[key@] == group_commands(group, target, events@.take(left as int), *writer)[key@],
        decreases left,
    {
        let ghost seen = events@.take(left as int);
        left -= 1;
        assert(seen.drop_last() =~= events@.take(left as int));
        let event = &events[left];
        assert(seen.last() == *event);
        if is_in_group(event, group) && is_same_text(event.name.as_str(), key) {
            if let Some(status) = event.status {
                return Some(hook_command(writer, status, target));
            }
        }
    }
    None
}

impl Reporter {
    /// The sessions with a turn in flight.
    pub closed spec fn view(&self) -> Set<Seq<char>> {
        strings_view(self.active@).to_set()
    }

    /// No session is kept twice.
    pub closed spec fn wf(&self) -> bool {
        strings_view(self.active@).no_duplicates()
    }

    /// No session has a turn in flight.
    pub fn new() -> (reporter: Self)
        ensures
            reporter.wf(),
            reporter.view() == Set::<Seq<char>>::empty(),
    {
        let reporter = Reporter { active: Vec::new() };
        assert(strings_view(reporter.active@).to_set() =~= Set::<Seq<char>>::empty());
        reporter
    }

    /// Where the session stands in the list.
    fn position(&self, session: &str) -> (at: Option<usize>)
        ensures
            at is Some == self.view().contains(session@),
            at is Some ==> at->Some_0 < self.active@.len() && self.active@[at->Some_0 as int]@
                == session@,
    {
        let mut i: usize = 0;
        while i < self.active.len()
            invariant
                i <= self.active@.len(),
                forall|j: int| 0 <= j < i ==> (#[trigger] self.active@[j])@ != session@,
            decreases self.active@.len() - i,
        {
            if is_same_text(self.active[i].as_str(), session) {
                assert(strings_view(self.active@)[i as int] == session@);
                return Some(i);
            }
            i += 1;
        }
        assert forall|j: int| 0 <= j < self.active@.len() implies strings_view(self.active@)[j]
            != session@ by {
            assert(self.active@[j]@ != session@);
        }
        None
    }

    /// Notes that the session has a turn in flight.
    fn begin(&mut self, session: &str)
        requires
            old(self).wf(),
        ensures
            final(self).wf(),
            final(self).view() == old(self).view().insert(session@),
    {
        if self.position(session).is_none() {
            let ghost before = strings_view(self.active@);
            self.active.push(session.to_owned());
            let ghost after = strings_view(self.active@);
            proof {
                assert(after =~= before.push(session@));
                assert(!before.contains(session@));
                assert(after.to_set() =~= before.to_set().insert(session@)) by {
                    assert forall|id: Seq<char>| after.contains(id) <==> before.contains(id) || id
                        == session@ by {
                        if before.contains(id) {
                            let i = choose|i: int| 0 <= i < before.len() && before[i] == id;
                            assert(after[i] == id);
                        }
                        if id == session@ {
                            assert(after[before.len() as int] == id);
                        }
                    }
                }
            }
        } else {
            assert(self.view() =~= old(self).view().insert(session@));
        }
    }

    /// Notes that the session has no turn in flight.
    fn end(&mut self, session: &str)
        requires
            old(self).wf(),
        ensures
            final(self).wf(),
            final(self).view() == old(self).view().remove(session@),
    {
        match self.position(session) {
            Some(at) => {
                let ghost before = strings_view(self.active@);
                let _ = self.active.remove(at);
                let ghost after = strings_view(self.active@);
                proof {
                    assert(after =~= before.remove(at as int));
                    assert(before[at as int] == session@);
                    assert forall|id: Seq<char>| after.contains(id) <==> before.contains(id) && id
                        != session@ by {
                        if after.contains(id) {
                            let i = choose|i: int| 0 <= i < after.len() && after[i] == id;
                            if i < at {
                                assert(before[i] == id);
                            } else {
                                assert(before[i + 1] == id);
                            }
                        }
                        if before.contains(id) && id != session@ {
                            let i = choose|i: int| 0 <= i < before.len() && before[i] == id;
                            if i < at {
                                assert(after[i] == id);
                            } else {
                                assert(after[i - 1] == id);
                            }
                        }
                    }
                    assert(after.to_set() =~= before.to_set().remove(session@));
                }
            },
            None => {
                assert(self.view() =~= old(self).view().remove(session@));
            },
        }
    }

    /// Whether no session has a turn in flight.
    fn is_quiet(&self) -> (quiet: bool)
        ensures
            quiet == (self.view() == Set::<Seq<char>>::empty()),
    {
        proof {
            let active = strings_view(self.active@);
            if active.len() > 0 {
                assert(active.contains(active[0]));
                assert(self.view().contains(active[0]));
            } else {
                assert(self.view() =~= Set::<Seq<char>>::empty());
            }
        }
        self.active.len() == 0
    }

    /// Takes in an event that goes by these names and belongs to this session,
    /// and gives what it hands to the shell.
    pub fn report(
        &mut self,
        keys: &[String],
        session: Option<&str>,
        target: HookInstallTarget,
        events: &[ResolvedHookEvent],
        writer: &StatusWriter,
    ) -> (report: Report)
        requires
            old(self).wf(),
        ensures
            final(self).wf(),
            (final(self).view(), report.view()) == reaction(
                old(self).view(),
                strings_view(keys@),
                present(session),
                group_maps(target, events@, *writer),
            ),
    {
        let ghost maps = group_maps(target, events@, *writer);
        let ghost names = strings_view(keys@);
        let mut i: usize = 0;
        assert(names.skip(0) =~= names);
        while i < keys.len()
            invariant
                i <= keys@.len(),
                *self == *old(self),
                self.wf(),
                names == strings_view(keys@),
                maps == group_maps(target, events@, *writer),
                deciding(names, maps) == deciding(names.skip(i as int), maps),
            decreases keys@.len() - i,
        {
            let key = keys[i].as_str();
            assert(names.skip(i as int)[0] == key@);
            assert(names.skip(i as int).drop_first() =~= names.skip(i + 1));
            let running = command_for(Group::Running, target, events, writer, key);
            if running.is_some() || is_inherited_name(key) {
                if let Some(id) = session {
                    if !id.is_empty() {
                        self.begin(id);
                    }
                }
                return match running {
                    Some(command) if !is_same_text(key, PROTOTYPE_NAME) => Report::Command(command),
                    _ => Report::NotACommand,
                };
            }
            if let Some(command) = command_for(Group::Idle, target, events, writer, key) {
                if let Some(id) = session {
                    if !id.is_empty() {
                        self.end(id);
                    }
                }
                return if self.is_quiet() { Report::Command(command) } else { Report::Nothing };
            }
            if let Some(command) = command_for(Group::Other, target, events, writer, key) {
                return Report::Command(command);
            }
            i += 1;
        }
        Report::Nothing
    }
}

} // verus!
