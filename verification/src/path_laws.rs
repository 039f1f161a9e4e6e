//! What holds of paths and of the variable that moves them, said of their
//! bytes: `/` is 47, `.` is 46, `=` is 61.

use crate::paths::{
    assigned_value, components, config_dir, config_dir_override, counted, entry_value, joined,
    optional_bytes, plugin_path, read_components, same_path, starts_with_dot,
};
use vstd::prelude::*;
use vstd::utf8::{encode_utf8, is_ascii_chars_encode_utf8};

verus! {

/// An entry gives the variable a value exactly where its bytes are the
/// variable's name, an equals sign and that value.
pub proof fn law_entry_is_name_and_value(name: Seq<u8>, entry: Seq<u8>, value: Seq<u8>)
    ensures
        entry_value(name, entry) == Some(value) <==> entry == name + seq![61u8] + value,
{
    let whole = name + seq![61u8] + value;
    if entry == whole {
        assert(entry.take(name.len() as int) =~= name);
        assert(entry.skip(name.len() as int + 1) =~= value);
    }
    if entry_value(name, entry) == Some(value) {
        assert(entry =~= entry.take(name.len() as int) + seq![entry[name.len() as int]]
            + entry.skip(name.len() as int + 1));
    }
}

/// An entry whose bytes are not the variable's name, an equals sign and some
/// value gives it none.
proof fn lemma_entry_of_another_form(name: Seq<u8>, entry: Seq<u8>)
    requires
        forall|value: Seq<u8>| entry != #[trigger] (name + seq![61u8] + value),
    ensures
        entry_value(name, entry) is None,
{
    if let Some(value) = entry_value(name, entry) {
        law_entry_is_name_and_value(name, entry, value);
        assert(entry == name + seq![61u8] + value);
    }
}

/// An entry whose bytes are not the variable's name, an equals sign and some
/// value makes no difference, wherever it stands.
pub proof fn law_entry_of_another_form_makes_no_difference(
    name: Seq<u8>,
    entries: Seq<String>,
    inherited: Option<Seq<u8>>,
    at: int,
)
    requires
        0 <= at < entries.len(),
        forall|value: Seq<u8>|
            encode_utf8(entries[at]@) != #[trigger] (name + seq![61u8] + value),
    ensures
        config_dir_override(name, entries.remove(at), inherited) == config_dir_override(
            name,
            entries,
            inherited,
        ),
{
    lemma_entry_of_another_form(name, encode_utf8(entries[at]@));
    crate::paths::law_unrelated_entry_makes_no_difference(name, entries, inherited, at);
}

/// The variable is what the last entry that sets it says, and unset where that
/// is empty, whatever the process has and whatever stands before that entry.
pub proof fn law_last_setting_entry_decides(
    name: Seq<u8>,
    entries: Seq<String>,
    inherited: Option<Seq<u8>>,
    at: int,
    value: Seq<u8>,
)
    requires
        0 <= at < entries.len(),
        encode_utf8(entries[at]@) == name + seq![61u8] + value,
        forall|j: int, other: Seq<u8>|
            at < j < entries.len() ==> encode_utf8((#[trigger] entries[j])@) != #[trigger] (name
                + seq![61u8] + other),
    ensures
        config_dir_override(name, entries, inherited) == if value.len() == 0 {
            None
        } else {
            Some(value)
        },
{
    lemma_last_setting_entry(name, entries, at, value);
}

proof fn lemma_last_setting_entry(name: Seq<u8>, entries: Seq<String>, at: int, value: Seq<u8>)
    requires
        0 <= at < entries.len(),
        encode_utf8(entries[at]@) == name + seq![61u8] + value,
        forall|j: int, other: Seq<u8>|
            at < j < entries.len() ==> encode_utf8((#[trigger] entries[j])@) != #[trigger] (name
                + seq![61u8] + other),
    ensures
        assigned_value(name, entries) == Some(value),
    decreases entries.len(),
{
    if at == entries.len() - 1 {
        law_entry_is_name_and_value(name, encode_utf8(entries[at]@), value);
        assert(entries.last() == entries[at]);
    } else {
        let earlier = entries.drop_last();
        assert(entries.last() == entries[entries.len() - 1]);
        lemma_entry_of_another_form(name, encode_utf8(entries[entries.len() - 1]@));
        assert(earlier[at] == entries[at]);
        assert forall|j: int, other: Seq<u8>| at < j < earlier.len() implies encode_utf8(
            (#[trigger] earlier[j])@,
        ) != #[trigger] (name + seq![61u8] + other) by {
            assert(earlier[j] == entries[j]);
        }
        lemma_last_setting_entry(name, earlier, at, value);
    }
}

/// Where no entry sets the variable, it is what the process has, and unset where
/// that is empty.
pub proof fn law_unset_variable_is_inherited(
    name: Seq<u8>,
    entries: Seq<String>,
    inherited: Option<Seq<u8>>,
)
    requires
        forall|j: int, other: Seq<u8>|
            0 <= j < entries.len() ==> encode_utf8((#[trigger] entries[j])@) != #[trigger] (name
                + seq![61u8] + other),
    ensures
        config_dir_override(name, entries, inherited) == match inherited {
            Some(value) => if value.len() == 0 {
                None
            } else {
                Some(value)
            },
            None => None,
        },
{
    lemma_no_setting_entry(name, entries);
}

proof fn lemma_no_setting_entry(name: Seq<u8>, entries: Seq<String>)
    requires
        forall|j: int, other: Seq<u8>|
            0 <= j < entries.len() ==> encode_utf8((#[trigger] entries[j])@) != #[trigger] (name
                + seq![61u8] + other),
    ensures
        assigned_value(name, entries) is None,
    decreases entries.len(),
{
    if entries.len() > 0 {
        let earlier = entries.drop_last();
        assert(entries.last() == entries[entries.len() - 1]);
        lemma_entry_of_another_form(name, encode_utf8(entries[entries.len() - 1]@));
        assert forall|j: int, other: Seq<u8>| 0 <= j < earlier.len() implies encode_utf8(
            (#[trigger] earlier[j])@,
        ) != #[trigger] (name + seq![61u8] + other) by {
            assert(earlier[j] == entries[j]);
        }
        lemma_no_setting_entry(name, earlier);
    }
}

/// A value that the process has counts by its bytes in UTF-8.
pub proof fn law_inherited_value_is_its_bytes(value: &str)
    ensures
        optional_bytes(Some(value)) == Some(encode_utf8(value@)),
        optional_bytes(None) is None,
{
}

/// Two paths joined are the second where it is absolute, and otherwise the two
/// in a row, with exactly one separator between them that neither of them had
/// there.
pub proof fn law_join_puts_paths_in_a_row(base: Seq<u8>, part: Seq<u8>)
    ensures
        part.len() > 0 && part[0] == 47u8 ==> joined(base, part) == part,
        base.len() == 0 ==> joined(base, part) == part,
        !(part.len() > 0 && part[0] == 47u8) && base.len() > 0 && base[base.len() - 1] == 47u8
            ==> joined(base, part) == base + part,
        !(part.len() > 0 && part[0] == 47u8) && base.len() > 0 && base[base.len() - 1] != 47u8
            ==> joined(base, part) == base + seq![47u8] + part,
{
    if base.len() == 0 {
        assert(base + part =~= part);
    }
}

/// It does not matter which of two joins is made first, unless what stands
/// between is empty.
pub proof fn law_joins_go_in_any_order(base: Seq<u8>, middle: Seq<u8>, part: Seq<u8>)
    requires
        middle.len() > 0,
    ensures
        joined(joined(base, middle), part) == joined(base, joined(middle, part)),
{
    assert(joined(base, middle).last() == middle.last());
    assert(joined(joined(base, middle), part) =~= joined(base, joined(middle, part)));
}

/// Below a directory that the variable names, opencode's configuration is in
/// `opencode`, and the plugin in `opencode/plugin/aoe-status.js`.
pub proof fn law_override_holds_the_plugin(home: Seq<u8>, dir: Seq<u8>)
    requires
        dir.len() > 0,
    ensures
        dir[dir.len() - 1] == 47u8 ==> config_dir(home, Some(dir)) == dir + encode_utf8(
            "opencode"@,
        ) && plugin_path(config_dir(home, Some(dir))) == dir + encode_utf8(
            "opencode/plugin/aoe-status.js"@,
        ),
        dir[dir.len() - 1] != 47u8 ==> config_dir(home, Some(dir)) == dir + encode_utf8(
            "/opencode"@,
        ) && plugin_path(config_dir(home, Some(dir))) == dir + encode_utf8(
            "/opencode/plugin/aoe-status.js"@,
        ),
{
    reveal_strlit("opencode");
    reveal_strlit("plugin");
    reveal_strlit("aoe-status.js");
    reveal_strlit("/opencode");
    reveal_strlit("opencode/plugin/aoe-status.js");
    reveal_strlit("/opencode/plugin/aoe-status.js");
    is_ascii_chars_encode_utf8("opencode"@);
    is_ascii_chars_encode_utf8("plugin"@);
    is_ascii_chars_encode_utf8("aoe-status.js"@);
    is_ascii_chars_encode_utf8("/opencode"@);
    is_ascii_chars_encode_utf8("opencode/plugin/aoe-status.js"@);
    is_ascii_chars_encode_utf8("/opencode/plugin/aoe-status.js"@);
    let config = config_dir(home, Some(dir));
    if dir[dir.len() - 1] == 47u8 {
        assert(config =~= dir + encode_utf8("opencode"@));
        assert(plugin_path(config) =~= dir + encode_utf8("opencode/plugin/aoe-status.js"@));
    } else {
        assert(config =~= dir + encode_utf8("/opencode"@));
        assert(plugin_path(config) =~= dir + encode_utf8("/opencode/plugin/aoe-status.js"@));
    }
}

/// Where nothing moves it, opencode's configuration is in `.config/opencode`
/// below the home directory, and the plugin in
/// `.config/opencode/plugin/aoe-status.js`.
pub proof fn law_home_holds_the_plugin(home: Seq<u8>)
    ensures
        home.len() == 0 || home[home.len() - 1] == 47u8 ==> config_dir(home, None) == home
            + encode_utf8(".config/opencode"@) && plugin_path(config_dir(home, None)) == home
            + encode_utf8(".config/opencode/plugin/aoe-status.js"@),
        home.len() > 0 && home[home.len() - 1] != 47u8 ==> config_dir(home, None) == home
            + encode_utf8("/.config/opencode"@) && plugin_path(config_dir(home, None)) == home
            + encode_utf8("/.config/opencode/plugin/aoe-status.js"@),
{
    reveal_strlit(".config");
    reveal_strlit("opencode");
    reveal_strlit("plugin");
    reveal_strlit("aoe-status.js");
    reveal_strlit(".config/opencode");
    reveal_strlit("/.config/opencode");
    reveal_strlit(".config/opencode/plugin/aoe-status.js");
    reveal_strlit("/.config/opencode/plugin/aoe-status.js");
    is_ascii_chars_encode_utf8(".config"@);
    is_ascii_chars_encode_utf8("opencode"@);
    is_ascii_chars_encode_utf8("plugin"@);
    is_ascii_chars_encode_utf8("aoe-status.js"@);
    is_ascii_chars_encode_utf8(".config/opencode"@);
    is_ascii_chars_encode_utf8("/.config/opencode"@);
    is_ascii_chars_encode_utf8(".config/opencode/plugin/aoe-status.js"@);
    is_ascii_chars_encode_utf8("/.config/opencode/plugin/aoe-status.js"@);
    let config = config_dir(home, None);
    if home.len() == 0 || home[home.len() - 1] == 47u8 {
        assert(config =~= home + encode_utf8(".config/opencode"@));
        assert(plugin_path(config) =~= home + encode_utf8(
            ".config/opencode/plugin/aoe-status.js"@,
        ));
    } else {
        assert(config =~= home + encode_utf8("/.config/opencode"@));
        assert(plugin_path(config) =~= home + encode_utf8(
            "/.config/opencode/plugin/aoe-status.js"@,
        ));
    }
}

/// A path in its shortest spelling: it does not end in a separator, no two
/// separators follow each other, and no component but the first is `.`.
pub open spec fn is_clean(path: Seq<u8>) -> bool {
    &&& path.len() > 0
    &&& path[path.len() - 1] != 47u8
    &&& forall|i: int|
        0 <= i < path.len() - 1 && #[trigger] path[i] == 47u8 ==> path[i + 1] != 47u8
    &&& forall|i: int|
        0 <= i < path.len() - 1 && #[trigger] path[i] == 47u8 && path[i + 1] == 46u8 ==> i + 2
            < path.len() && path[i + 2] != 47u8
}

/// The names in a row, each with a separator behind it.
spec fn flat(names: Seq<Seq<u8>>) -> Seq<u8>
    decreases names.len(),
{
    if names.len() == 0 {
        Seq::empty()
    } else {
        flat(names.drop_last()) + names.last() + seq![47u8]
    }
}

/// What of the first `read` bytes of a clean path is in no component.
spec fn lead(path: Seq<u8>, read: int) -> Seq<u8> {
    if path[0] == 47u8 {
        seq![47u8]
    } else if starts_with_dot(path) && read >= 2 {
        seq![46u8, 47u8]
    } else {
        Seq::empty()
    }
}

/// A clean path, as far as it is read, is what its components make.
proof fn lemma_clean_path_is_its_components(path: Seq<u8>, read: int)
    requires
        is_clean(path),
        1 <= read <= path.len(),
    ensures
        ({
            let (ended, open) = read_components(path.take(read));
            &&& path.take(read) == lead(path, read) + flat(ended) + open
            &&& open.len() <= read
            &&& open == path.subrange(read - open.len(), read)
            &&& read == open.len() || path[read - open.len() - 1] == 47u8
        }),
    decreases read,
{
    let before = path.take(read - 1);
    assert(path.take(read).drop_last() =~= before);
    assert(path.take(read).last() == path[read - 1]);
    let (ended, open) = read_components(path.take(read));
    if read == 1 {
        assert(before =~= Seq::<u8>::empty());
        assert(read_components(before) == (Seq::<Seq<u8>>::empty(), Seq::<u8>::empty()));
        assert(counted(Seq::<u8>::empty()) =~= Seq::<Seq<u8>>::empty());
        assert(ended =~= Seq::<Seq<u8>>::empty());
        assert(path.take(read) =~= lead(path, read) + flat(ended) + open);
        assert(open =~= path.subrange(read - open.len(), read));
    } else {
        lemma_clean_path_is_its_components(path, read - 1);
        let (ended0, open0) = read_components(before);
        let start: int = read - 1 - open0.len();
        assert(path.take(read) =~= before + seq![path[read - 1]]);
        if path[read - 1] == 47u8 {
            // The component that ends here is not empty: the byte before is no
            // separator.
            if open0.len() == 0 {
                assert(path[read - 2] == 47u8);
                assert(false);
            }
            if open0 == seq![46u8] {
                assert(path[start] == open0[0]);
                if start > 0 {
                    assert(path[start - 1] == 47u8);
                    assert(false);
                }
                assert(read == 2);
                assert(starts_with_dot(path));
                assert(flat(ended0).len() == 0);
                if ended0.len() > 0 {
                    assert(flat(ended0).len() > 0);
                }
                assert(counted(open0) =~= Seq::<Seq<u8>>::empty());
                assert(ended =~= Seq::<Seq<u8>>::empty());
                assert(path.take(read) =~= lead(path, read) + flat(ended) + open);
            } else {
                assert(ended =~= ended0.push(open0));
                assert(ended.drop_last() =~= ended0);
                assert(flat(ended) == flat(ended0) + open0 + seq![47u8]);
                assert(lead(path, read) == lead(path, read - 1)) by {
                    if read == 2 && starts_with_dot(path) && path[0] != 47u8 {
                        assert(open0 =~= seq![46u8]);
                    }
                }
                assert(path.take(read) =~= lead(path, read) + flat(ended) + open);
            }
            assert(open =~= path.subrange(read - open.len(), read));
        } else {
            assert(lead(path, read) == lead(path, read - 1)) by {
                if read == 2 && starts_with_dot(path) {
                    assert(path[1] == 47u8);
                }
            }
            assert(path.take(read) =~= lead(path, read) + flat(ended) + open);
            assert(open =~= path.subrange(read - open.len(), read));
        }
    }
}

/// A clean path other than `.` is what precedes its components, then these.
proof fn lemma_clean_path(path: Seq<u8>)
    requires
        is_clean(path),
        path != seq![46u8],
    ensures
        components(path).len() > 0,
        path == lead(path, path.len() as int) + flat(components(path).drop_last()) + components(
            path,
        ).last(),
{
    let read = path.len() as int;
    lemma_clean_path_is_its_components(path, read);
    assert(path.take(read) =~= path);
    let (ended, open) = read_components(path);
    let start: int = read - open.len();
    assert(open.len() > 0);
    if open == seq![46u8] {
        assert(path[start] == open[0]);
        if start > 0 {
            assert(path[start - 1] == 47u8);
            assert(false);
        }
        assert(path =~= seq![46u8]);
    }
    assert(components(path) =~= ended.push(open));
    assert(components(path).drop_last() =~= ended);
}

/// Paths in their shortest spelling are the same path only where they are the
/// same bytes: where they differ in any component, they are two.
pub proof fn law_clean_paths_are_told_by_their_bytes(left: Seq<u8>, right: Seq<u8>)
    requires
        is_clean(left),
        is_clean(right),
    ensures
        same_path(left, right) <==> left == right,
{
    if same_path(left, right) {
        let dot = seq![46u8];
        assert(read_components(dot) == (Seq::<Seq<u8>>::empty(), dot)) by {
            assert(dot.drop_last() =~= Seq::<u8>::empty());
            assert(read_components(Seq::<u8>::empty()) == (
                Seq::<Seq<u8>>::empty(),
                Seq::<u8>::empty(),
            ));
            assert(Seq::<u8>::empty().push(46u8) =~= dot);
        }
        assert(components(dot) =~= Seq::<Seq<u8>>::empty());
        if left != dot {
            lemma_clean_path(left);
        }
        if right != dot {
            lemma_clean_path(right);
        }
        if left != dot && right != dot {
            if starts_with_dot(left) {
                assert(left.len() == 1 ==> left =~= dot);
                assert(right.len() == 1 ==> right =~= dot);
            }
            assert(lead(left, left.len() as int) == lead(right, right.len() as int));
        }
    }
}

/// Reading on from the same state gives the same state.
proof fn lemma_reading_goes_on(left: Seq<u8>, right: Seq<u8>, rest: Seq<u8>)
    requires
        read_components(left) == read_components(right),
    ensures
        read_components(left + rest) == read_components(right + rest),
    decreases rest.len(),
{
    if rest.len() == 0 {
        assert(left + rest =~= left);
        assert(right + rest =~= right);
    } else {
        let shorter = rest.drop_last();
        lemma_reading_goes_on(left, right, shorter);
        assert((left + rest).drop_last() =~= left + shorter);
        assert((right + rest).drop_last() =~= right + shorter);
        assert((left + rest).last() == rest.last());
        assert((right + rest).last() == rest.last());
    }
}

/// What reading one more byte does.
proof fn lemma_read_one_more(path: Seq<u8>, byte: u8)
    ensures
        ({
            let (ended, open) = read_components(path);
            read_components(path + seq![byte]) == if byte == 47u8 {
                (ended + counted(open), Seq::<u8>::empty())
            } else {
                (ended, open.push(byte))
            }
        }),
{
    assert((path + seq![byte]).drop_last() =~= path);
    assert((path + seq![byte]).last() == byte);
}

/// After a separator, neither another one nor a component `.` with its own
/// changes what has been read.
proof fn lemma_separators_add_nothing(path: Seq<u8>)
    ensures
        read_components(path + seq![47u8, 47u8]) == read_components(path + seq![47u8]),
        read_components(path + seq![47u8, 46u8, 47u8]) == read_components(path + seq![47u8]),
        components(path + seq![47u8]) == components(path),
        components(path + seq![47u8, 46u8]) == components(path),
{
    let none = Seq::<Seq<u8>>::empty();
    let (ended, open) = read_components(path);
    let once = path + seq![47u8];
    lemma_read_one_more(path, 47u8);
    assert(counted(Seq::<u8>::empty()) =~= none);
    lemma_read_one_more(once, 47u8);
    assert(path + seq![47u8, 47u8] =~= once + seq![47u8]);
    assert(ended + counted(open) + none =~= ended + counted(open));
    lemma_read_one_more(once, 46u8);
    let dotted = once + seq![46u8];
    assert(path + seq![47u8, 46u8] =~= dotted);
    assert(Seq::<u8>::empty().push(46u8) =~= seq![46u8]);
    assert(counted(seq![46u8]) =~= none);
    lemma_read_one_more(dotted, 47u8);
    assert(path + seq![47u8, 46u8, 47u8] =~= dotted + seq![47u8]);
}

/// A separator more, a component `.` more, or a separator or `/.` at the end
/// make another spelling of the same path.
pub proof fn law_spellings_of_one_path(first: Seq<u8>, rest: Seq<u8>)
    ensures
        same_path(first + seq![47u8, 47u8] + rest, first + seq![47u8] + rest),
        same_path(first + seq![47u8, 46u8, 47u8] + rest, first + seq![47u8] + rest),
        first.len() > 0 ==> same_path(first + seq![47u8], first),
        first.len() > 0 ==> same_path(first + seq![47u8, 46u8], first),
{
    lemma_separators_add_nothing(first);
    let once = first + seq![47u8];
    lemma_reading_goes_on(first + seq![47u8, 47u8], once, rest);
    lemma_reading_goes_on(first + seq![47u8, 46u8, 47u8], once, rest);
    let plain = once + rest;
    let twice = first + seq![47u8, 47u8] + rest;
    let dotted = first + seq![47u8, 46u8, 47u8] + rest;
    assert(twice[0] == plain[0] && dotted[0] == plain[0]);
    if first.len() > 0 {
        assert(twice[1] == plain[1] && dotted[1] == plain[1]);
        let ended = first + seq![47u8];
        let ended_dot = first + seq![47u8, 46u8];
        assert(ended[0] == first[0] && ended_dot[0] == first[0]);
        assert(ended[1] == ended_dot[1]);
        assert(first.len() == 1 ==> ended[1] == 47u8);
        assert(first.len() > 1 ==> ended[1] == first[1]);
    }
}

/// Spellings of one path are so among each other.
pub proof fn law_same_path_is_an_equivalence(first: Seq<u8>, second: Seq<u8>, third: Seq<u8>)
    ensures
        same_path(first, first),
        same_path(first, second) ==> same_path(second, first),
        same_path(first, second) && same_path(second, third) ==> same_path(first, third),
{
}

/// An absolute path and one that is not are never the same path.
pub proof fn law_absolute_and_relative_paths_differ(left: Seq<u8>, right: Seq<u8>)
    requires
        left.len() > 0 && left[0] == 47u8,
        right.len() == 0 || right[0] != 47u8,
    ensures
        !same_path(left, right),
{
}

/// The absolute path of the names: each with a separator before it.
pub open spec fn spelled(names: Seq<Seq<u8>>) -> Seq<u8>
    decreases names.len(),
{
    if names.len() == 0 {
        Seq::empty()
    } else {
        spelled(names.drop_last()) + seq![47u8] + names.last()
    }
}

/// The name can stand as a component: it is neither empty nor `.`, and holds no
/// separator.
pub open spec fn is_name(name: Seq<u8>) -> bool {
    name.len() > 0 && name != seq![46u8] && !name.contains(47u8)
}

/// A name behind a separator is what stands open behind it.
proof fn lemma_read_name(path: Seq<u8>, name: Seq<u8>)
    requires
        read_components(path).1.len() == 0,
        !name.contains(47u8),
    ensures
        read_components(path + name) == (read_components(path).0, name),
    decreases name.len(),
{
    if name.len() == 0 {
        assert(path + name =~= path);
        assert(read_components(path).1 =~= name);
    } else {
        let shorter = name.drop_last();
        assert forall|i: int| 0 <= i < shorter.len() implies shorter[i] != 47u8 by {
            assert(name[i] == shorter[i]);
            assert(name.contains(name[i]));
        }
        lemma_read_name(path, shorter);
        assert(name.contains(name.last()));
        assert(path + name =~= (path + shorter) + seq![name.last()]);
        lemma_read_one_more(path + shorter, name.last());
        assert(shorter.push(name.last()) =~= name);
    }
}

/// A path that was spelled from names has these names for its components, each
/// in its place.
pub proof fn law_components_are_the_names(names: Seq<Seq<u8>>)
    requires
        forall|i: int| 0 <= i < names.len() ==> is_name(#[trigger] names[i]),
    ensures
        components(spelled(names)) == names,
{
    if names.len() == 0 {
        assert(components(spelled(names)) =~= names);
    } else {
        lemma_read_spelled(names);
        assert(is_name(names[names.len() - 1]));
        assert(components(spelled(names)) =~= names);
    }
}

proof fn lemma_read_spelled(names: Seq<Seq<u8>>)
    requires
        names.len() > 0,
        forall|i: int| 0 <= i < names.len() ==> is_name(#[trigger] names[i]),
    ensures
        read_components(spelled(names)) == (names.drop_last(), names.last()),
    decreases names.len(),
{
    let earlier = names.drop_last();
    let opened = spelled(earlier) + seq![47u8];
    assert forall|i: int| 0 <= i < earlier.len() implies is_name(#[trigger] earlier[i]) by {
        assert(earlier[i] == names[i]);
    }
    assert(is_name(names[names.len() - 1]));
    lemma_read_one_more(spelled(earlier), 47u8);
    if earlier.len() == 0 {
        assert(read_components(opened).0 =~= earlier);
    } else {
        lemma_read_spelled(earlier);
        assert(is_name(earlier[earlier.len() - 1]));
        assert(read_components(opened).0 =~= earlier);
    }
    lemma_read_name(opened, names.last());
}

/// Two absolute paths are the same path only where they have equally many names
/// and the same name in every place.
pub proof fn law_same_path_has_the_same_names(left: Seq<Seq<u8>>, right: Seq<Seq<u8>>)
    requires
        forall|i: int| 0 <= i < left.len() ==> is_name(#[trigger] left[i]),
        forall|i: int| 0 <= i < right.len() ==> is_name(#[trigger] right[i]),
    ensures
        same_path(spelled(left), spelled(right)) <==> left.len() == right.len() && forall|i: int|
            0 <= i < left.len() ==> left[i] == right[i],
{
    law_components_are_the_names(left);
    law_components_are_the_names(right);
    assert((left.len() == right.len() && forall|i: int|
        0 <= i < left.len() ==> left[i] == right[i]) <==> left =~= right);
}

/// Neither the root nor the empty path is any path that names something.
pub proof fn law_root_and_empty_path_stand_alone(path: Seq<u8>)
    requires
        is_clean(path),
    ensures
        !same_path(seq![47u8], path),
        !same_path(Seq::<u8>::empty(), path),
{
    let none = Seq::<Seq<u8>>::empty();
    let empty = Seq::<u8>::empty();
    assert(components(empty) =~= none);
    lemma_separators_add_nothing(empty);
    assert(empty + seq![47u8] =~= seq![47u8]);
    assert(components(seq![47u8]) =~= none);
    if path != seq![46u8] {
        lemma_clean_path(path);
    }
}

} // verus!
