//! Where the plugin file lies.
//!
//! A path is its bytes, as Unix has them: `/` separates components, and any
//! other byte may stand in a name.

use crate::text::equal_bytes;
use vstd::prelude::*;
use vstd::slice::{slice_subrange, slice_to_vec};
use vstd::utf8::{encode_utf8, is_ascii_chars_encode_utf8};

verus! {

/// The plugin file below the home directory, where no `XDG_CONFIG_HOME` moves
/// the configuration elsewhere.
pub const OPENCODE_PLUGIN_SUBPATH: &'static str = ".config/opencode/plugin/aoe-status.js";

/// The plugin file below the home directory whose `.config/opencode/sandbox`
/// is mounted at `~/.config/opencode` inside the sandbox container, so that
/// opencode finds it there at `~/.config/opencode/plugin/aoe-status.js`.
pub const OPENCODE_PLUGIN_SANDBOX_SUBPATH: &'static str = ".config/opencode/sandbox/plugin/aoe-status.js";

/// The variable that moves the user's configuration directory.
pub const CONFIG_HOME_VARIABLE: &'static str = "XDG_CONFIG_HOME";

/// The byte that separates the components of a path: `/`.
pub const SEPARATOR: u8 = 47;

/// The byte between the name and the value of an environment entry: `=`.
pub const ASSIGNS: u8 = 61;

/// `base` extended by `part`. An absolute `part` stands for itself; otherwise
/// the two are put in a row, with a separator between them unless `base` is
/// empty or ends in one.
pub open spec fn joined(base: Seq<u8>, part: Seq<u8>) -> Seq<u8> {
    if part.len() > 0 && part[0] == SEPARATOR {
        part
    } else if base.len() == 0 || base.last() == SEPARATOR {
        base + part
    } else {
        base + seq![SEPARATOR] + part
    }
}

/// The value that the environment entry `entry` gives to the variable `name`:
/// what follows `name=`, if the entry starts so.
pub open spec fn entry_value(name: Seq<u8>, entry: Seq<u8>) -> Option<Seq<u8>> {
    if entry.len() > name.len() && entry.take(name.len() as int) == name && entry[name.len() as int]
        == ASSIGNS {
        Some(entry.skip(name.len() as int + 1))
    } else {
        None
    }
}

/// The value that the environment entries give to the variable `name`, the
/// last one deciding.
pub open spec fn assigned_value(name: Seq<u8>, entries: Seq<String>) -> Option<Seq<u8>>
    decreases entries.len(),
{
    if entries.len() == 0 {
        None
    } else {
        match entry_value(name, encode_utf8(entries.last()@)) {
            Some(value) => Some(value),
            None => assigned_value(name, entries.drop_last()),
        }
    }
}

/// The bytes of a value that is there.
pub open spec fn optional_bytes(value: Option<&str>) -> Option<Seq<u8>> {
    match value {
        Some(text) => Some(encode_utf8(text@)),
        None => None,
    }
}

/// The value of the variable `name` in a session that is started with
/// `entries` on top of an environment where its value is `inherited`. An empty
/// value counts as none.
pub open spec fn config_dir_override(
    name: Seq<u8>,
    entries: Seq<String>,
    inherited: Option<Seq<u8>>,
) -> Option<Seq<u8>> {
    let value = match assigned_value(name, entries) {
        Some(value) => Some(value),
        None => inherited,
    };
    if value is Some && value->Some_0.len() == 0 {
        None
    } else {
        value
    }
}

/// opencode's configuration directory: `opencode` below the override, else
/// below `.config` in the home directory.
pub open spec fn config_dir(home: Seq<u8>, moved: Option<Seq<u8>>) -> Seq<u8> {
    match moved {
        Some(dir) => joined(dir, encode_utf8("opencode"@)),
        None => joined(joined(home, encode_utf8(".config"@)), encode_utf8("opencode"@)),
    }
}

/// The plugin file in opencode's configuration directory `dir`.
pub open spec fn plugin_path(dir: Seq<u8>) -> Seq<u8> {
    joined(joined(dir, encode_utf8("plugin"@)), encode_utf8("aoe-status.js"@))
}

/// The name of the current directory: `.`.
pub const DOT: u8 = 46;

/// A component that counts: neither empty nor a mere `.`.
pub open spec fn counted(component: Seq<u8>) -> Seq<Seq<u8>> {
    if component.len() == 0 || component == seq![DOT] {
        Seq::empty()
    } else {
        seq![component]
    }
}

/// The path read from the left: the components that a separator has ended, and
/// what follows the last separator.
pub open spec fn read_components(path: Seq<u8>) -> (Seq<Seq<u8>>, Seq<u8>)
    decreases path.len(),
{
    if path.len() == 0 {
        (Seq::empty(), Seq::empty())
    } else {
        let (ended, open) = read_components(path.drop_last());
        if path.last() == SEPARATOR {
            (ended + counted(open), Seq::empty())
        } else {
            (ended, open.push(path.last()))
        }
    }
}

/// The components of a path. Repeated separators, a separator at the end and
/// components `.` make no difference.
pub open spec fn components(path: Seq<u8>) -> Seq<Seq<u8>> {
    let (ended, open) = read_components(path);
    ended + counted(open)
}

/// The path starts at the root.
pub open spec fn is_rooted(path: Seq<u8>) -> bool {
    path.len() > 0 && path[0] == SEPARATOR
}

/// The path starts with the component `.`, which is kept there.
pub open spec fn starts_with_dot(path: Seq<u8>) -> bool {
    path.len() > 0 && path[0] == DOT && (path.len() == 1 || path[1] == SEPARATOR)
}

/// Two spellings of one path: they agree in where they start and in their
/// components.
pub open spec fn same_path(left: Seq<u8>, right: Seq<u8>) -> bool {
    &&& is_rooted(left) == is_rooted(right)
    &&& starts_with_dot(left) == starts_with_dot(right)
    &&& components(left) == components(right)
}

/// The components, as sequences.
spec fn texts(names: Seq<Vec<u8>>) -> Seq<Seq<u8>> {
    names.map_values(|name: Vec<u8>| name@)
}

/// Adds the component to the list, if it counts.
fn push_counted(names: &mut Vec<Vec<u8>>, component: Vec<u8>)
    ensures
        texts(final(names)@) == texts(old(names)@) + counted(component@),
{
    if component.len() == 0 || (component.len() == 1 && component[0] == DOT) {
        assert(component@.len() == 1 ==> component@ =~= seq![DOT]);
    } else {
        names.push(component);
    }
    assert(texts(names@) =~= texts(old(names)@) + counted(component@));
}

/// Splits a path into its components.
fn split_components(path: &[u8]) -> (names: Vec<Vec<u8>>)
    ensures
        texts(names@) == components(path@),
{
    let mut names: Vec<Vec<u8>> = Vec::new();
    let mut open: Vec<u8> = Vec::new();
    let mut i: usize = 0;
    assert(texts(names@) =~= Seq::<Seq<u8>>::empty());
    while i < path.len()
        invariant
            i <= path@.len(),
            read_components(path@.take(i as int)) == (texts(names@), open@),
        decreases path@.len() - i,
    {
        assert(path@.take(i + 1).drop_last() =~= path@.take(i as int));
        if path[i] == SEPARATOR {
            push_counted(&mut names, open);
            open = Vec::new();
        } else {
            open.push(path[i]);
        }
        i += 1;
    }
    assert(path@.take(i as int) =~= path@);
    push_counted(&mut names, open);
    names
}

/// Whether two paths are spellings of one path.
pub fn is_same_path(left: &[u8], right: &[u8]) -> (same: bool)
    ensures
        same == same_path(left@, right@),
{
    let left_rooted = left.len() > 0 && left[0] == SEPARATOR;
    let right_rooted = right.len() > 0 && right[0] == SEPARATOR;
    let left_dot = left.len() > 0 && left[0] == DOT && (left.len() == 1 || left[1] == SEPARATOR);
    let right_dot = right.len() > 0 && right[0] == DOT && (right.len() == 1 || right[1]
        == SEPARATOR);
    if left_rooted != right_rooted || left_dot != right_dot {
        return false;
    }
    let left_names = split_components(left);
    let right_names = split_components(right);
    assert(texts(left_names@).len() == left_names@.len());
    assert(texts(right_names@).len() == right_names@.len());
    if left_names.len() != right_names.len() {
        return false;
    }
    let mut i: usize = 0;
    while i < left_names.len()
        invariant
            i <= left_names@.len(),
            left_names@.len() == right_names@.len(),
            forall|j: int| 0 <= j < i ==> left_names@[j]@ == right_names@[j]@,
            texts(left_names@) == components(left@),
            texts(right_names@) == components(right@),
        decreases left_names@.len() - i,
    {
        if !equal_bytes(left_names[i].as_slice(), right_names[i].as_slice()) {
            assert(texts(left_names@)[i as int] != texts(right_names@)[i as int]);
            return false;
        }
        i += 1;
    }
    assert(texts(left_names@) =~= texts(right_names@));
    true
}

/// Extends `base` by `part`.
pub fn join(base: &[u8], part: &[u8]) -> (path: Vec<u8>)
    ensures
        path@ == joined(base@, part@),
{
    if part.len() > 0 && part[0] == SEPARATOR {
        return slice_to_vec(part);
    }
    let mut path = slice_to_vec(base);
    if base.len() > 0 && base[base.len() - 1] != SEPARATOR {
        path.push(SEPARATOR);
    }
    let mut rest = slice_to_vec(part);
    path.append(&mut rest);
    assert(path@ =~= joined(base@, part@));
    path
}

/// Extends `base` by the component `part`.
fn join_str(base: &[u8], part: &str) -> (path: Vec<u8>)
    ensures
        path@ == joined(base@, encode_utf8(part@)),
{
    join(base, part.as_bytes())
}

/// The value that the entry gives to the variable, if it does.
fn value_in_entry(name: &[u8], entry: &[u8]) -> (value: Option<Vec<u8>>)
    ensures
        value is Some == entry_value(name@, entry@) is Some,
        value is Some ==> value->Some_0@ == entry_value(name@, entry@)->Some_0,
{
    if entry.len() <= name.len() {
        return None;
    }
    assert(entry@.take(name@.len() as int) =~= entry@.subrange(0, name@.len() as int));
    if equal_bytes(slice_subrange(entry, 0, name.len()), name) && entry[name.len()] == ASSIGNS {
        let value = slice_to_vec(slice_subrange(entry, name.len() + 1, entry.len()));
        assert(value@ =~= entry@.skip(name@.len() as int + 1));
        Some(value)
    } else {
        None
    }
}

/// What the variable `name` is in a session that is started with the
/// environment entries `host_env`, in a process that has it as `inherited`.
/// The session's entry decides; an empty value counts as none.
pub fn resolve_config_dir_override(name: &str, host_env: &[String], inherited: Option<&str>) -> (r:
    Option<Vec<u8>>)
    ensures
        r is Some == config_dir_override(
            encode_utf8(name@),
            host_env@,
            optional_bytes(inherited),
        ) is Some,
        r is Some ==> r->Some_0@ == config_dir_override(
            encode_utf8(name@),
            host_env@,
            optional_bytes(inherited),
        )->Some_0,
{
    let mut left: usize = host_env.len();
    assert(host_env@.take(left as int) =~= host_env@);
    while left > 0
        invariant
            left <= host_env@.len(),
            assigned_value(encode_utf8(name@), host_env@) == assigned_value(
                encode_utf8(name@),
                host_env@.take(left as int),
            ),
        decreases left,
    {
        let ghost seen = host_env@.take(left as int);
        left -= 1;
        assert(seen.drop_last() =~= host_env@.take(left as int));
        match value_in_entry(name.as_bytes(), host_env[left].as_str().as_bytes()) {
            Some(value) => {
                return if value.len() == 0 { None } else { Some(value) };
            },
            None => {},
        }
    }
    match inherited {
        Some(value) => {
            let bytes = slice_to_vec(value.as_bytes());
            if bytes.len() == 0 { None } else { Some(bytes) }
        },
        None => None,
    }
}

/// opencode's configuration directory on the host: `$XDG_CONFIG_HOME/opencode`
/// where the variable is set and not empty, else `.config/opencode` in `home`.
pub fn opencode_config_dir_in(home: &[u8], host_env: &[String], inherited: Option<&str>) -> (dir:
    Vec<u8>)
    ensures
        dir@ == config_dir(
            home@,
            config_dir_override(
                encode_utf8(CONFIG_HOME_VARIABLE@),
                host_env@,
                optional_bytes(inherited),
            ),
        ),
{
    match resolve_config_dir_override(CONFIG_HOME_VARIABLE, host_env, inherited) {
        Some(moved) => join_str(moved.as_slice(), "opencode"),
        None => join_str(join_str(home, ".config").as_slice(), "opencode"),
    }
}

/// The plugin file on the host: `plugin/aoe-status.js` in opencode's
/// configuration directory.
pub fn opencode_plugin_path_in(home: &[u8], host_env: &[String], inherited: Option<&str>) -> (path:
    Vec<u8>)
    ensures
        path@ == plugin_path(
            config_dir(
                home@,
                config_dir_override(
                    encode_utf8(CONFIG_HOME_VARIABLE@),
                    host_env@,
                    optional_bytes(inherited),
                ),
            ),
        ),
{
    let dir = opencode_config_dir_in(home, host_env, inherited);
    join_str(join_str(dir.as_slice(), "plugin").as_slice(), "aoe-status.js")
}

/// Where nothing moves the configuration, the plugin file is exactly the
/// declared subpath of the home directory, so a caller that joins the two lands
/// in the same place.
pub proof fn law_subpath_is_the_default(home: Seq<u8>)
    ensures
        plugin_path(config_dir(home, None)) == joined(home, encode_utf8(OPENCODE_PLUGIN_SUBPATH@)),
{
    reveal_strlit(".config");
    reveal_strlit("opencode");
    reveal_strlit("plugin");
    reveal_strlit("aoe-status.js");
    reveal_strlit(".config/opencode/plugin/aoe-status.js");
    is_ascii_chars_encode_utf8(".config"@);
    is_ascii_chars_encode_utf8("opencode"@);
    is_ascii_chars_encode_utf8("plugin"@);
    is_ascii_chars_encode_utf8("aoe-status.js"@);
    is_ascii_chars_encode_utf8(OPENCODE_PLUGIN_SUBPATH@);
    assert(plugin_path(config_dir(home, None)) =~= joined(
        home,
        encode_utf8(OPENCODE_PLUGIN_SUBPATH@),
    ));
}

/// opencode looks for plugins in `plugin` below its configuration directory:
/// that is where the file lies, whichever directory that is.
pub proof fn law_plugin_lies_where_opencode_looks(dir: Seq<u8>)
    ensures
        plugin_path(dir) == joined(dir, encode_utf8("plugin/aoe-status.js"@)),
{
    reveal_strlit("plugin");
    reveal_strlit("aoe-status.js");
    reveal_strlit("plugin/aoe-status.js");
    is_ascii_chars_encode_utf8("plugin"@);
    is_ascii_chars_encode_utf8("aoe-status.js"@);
    is_ascii_chars_encode_utf8("plugin/aoe-status.js"@);
    assert(plugin_path(dir) =~= joined(dir, encode_utf8("plugin/aoe-status.js"@)));
}

/// A session's own entry wins: the last entry for the variable decides, over
/// earlier ones and over what the process has. If it is empty, the variable
/// counts as unset.
pub proof fn law_session_entry_wins(
    name: Seq<u8>,
    entries: Seq<String>,
    entry: String,
    inherited: Option<Seq<u8>>,
    value: Seq<u8>,
)
    requires
        encode_utf8(entry@) == name + seq![ASSIGNS] + value,
    ensures
        config_dir_override(name, entries.push(entry), inherited) == if value.len() > 0 {
            Some(value)
        } else {
            None
        },
{
    let bytes = encode_utf8(entry@);
    assert(bytes.take(name.len() as int) =~= name);
    assert(bytes.skip(name.len() as int + 1) =~= value);
    assert(entries.push(entry).last() == entry);
}

/// An entry that does not set the variable makes no difference, wherever it
/// stands.
pub proof fn law_unrelated_entry_makes_no_difference(
    name: Seq<u8>,
    entries: Seq<String>,
    inherited: Option<Seq<u8>>,
    at: int,
)
    requires
        0 <= at < entries.len(),
        entry_value(name, encode_utf8(entries[at]@)) is None,
    ensures
        config_dir_override(name, entries.remove(at), inherited) == config_dir_override(
            name,
            entries,
            inherited,
        ),
{
    lemma_unrelated_entry(name, entries, at);
}

proof fn lemma_unrelated_entry(name: Seq<u8>, entries: Seq<String>, at: int)
    requires
        0 <= at < entries.len(),
        entry_value(name, encode_utf8(entries[at]@)) is None,
    ensures
        assigned_value(name, entries.remove(at)) == assigned_value(name, entries),
    decreases entries.len(),
{
    if at == entries.len() - 1 {
        assert(entries.remove(at) =~= entries.drop_last());
    } else {
        let earlier = entries.drop_last();
        lemma_unrelated_entry(name, earlier, at);
        assert(entries.remove(at).drop_last() =~= earlier.remove(at));
        assert(entries.remove(at).last() == entries.last());
    }
}

} // verus!
