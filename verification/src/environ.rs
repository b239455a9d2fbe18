//! The environment of a spawned child: composed from an allowlist and the
//! terminal defaults, never inherited.
//!
//! A child launched with a nested-session marker in its environment silently
//! stops persisting its transcript. Composing from an allowlist makes the strip
//! structural.
use vstd::prelude::*;
use vstd::string::*;

use crate::lines::{cut, decode_lossy, lemma_cut, lemma_cut_at, lossy};
use crate::report::texts;
use crate::text::{
    begins_with, chars_of, code_of, decimal, join, joined, push_u64, push_usize, same_text,
    starts_with,
};

verus! {

/// The facts about a platform that the environment depends on.
#[derive(Clone, Copy, PartialEq, Eq, Debug, Structural)]
pub struct Platform {
    pub windows: bool,
    pub macos: bool,
}

/// An environment: names and values, in order.
pub type Env = Seq<(Seq<char>, Seq<char>)>;

/// The contents of a list of variables.
pub open spec fn pairs(list: Seq<(String, String)>) -> Env {
    list.map_values(|p: (String, String)| (p.0@, p.1@))
}

/// The value of a variable: of the first of that name.
pub open spec fn value_of(env: Env, name: Seq<char>) -> Option<Seq<char>>
    decreases env.len(),
{
    if env.len() == 0 {
        None
    } else if env[0].0 == name {
        Some(env[0].1)
    } else {
        value_of(env.drop_first(), name)
    }
}

/// An environment with a variable set: in the place of the first of that name,
/// or at the end.
pub open spec fn assigned(env: Env, name: Seq<char>, value: Seq<char>) -> Env
    decreases env.len(),
{
    if env.len() == 0 {
        seq![(name, value)]
    } else if env[0].0 == name {
        seq![(name, value)] + env.drop_first()
    } else {
        seq![env[0]] + assigned(env.drop_first(), name, value)
    }
}

fn assign(env: &mut Vec<(String, String)>, name: &str, value: &str)
    ensures
        pairs(final(env)@) == assigned(pairs(old(env)@), name@, value@),
{
    let ghost start = env@;
    let ghost all = pairs(env@);
    let mut i: usize = 0;
    assert(all.skip(0) =~= all);
    assert(all.take(0) + assigned(all, name@, value@) =~= assigned(all, name@, value@));
    while i < env.len()
        invariant
            env@ == start,
            start == old(env)@,
            all == pairs(start),
            i <= env@.len(),
            assigned(all, name@, value@) == all.take(i as int) + assigned(
                all.skip(i as int),
                name@,
                value@,
            ),
        decreases env@.len() - i,
    {
        let ghost rest = all.skip(i as int);
        assert(rest.drop_first() =~= all.skip(i + 1));
        if same_text(env[i].0.as_str(), name) {
            env[i] = (name.to_owned(), value.to_owned());
            assert(pairs(env@) =~= assigned(all, name@, value@));
            return;
        }
        assert(all.take(i as int) + (seq![rest[0]] + assigned(rest.drop_first(), name@, value@))
            =~= all.take(i + 1) + assigned(rest.drop_first(), name@, value@));
        i += 1;
    }
    env.push((name.to_owned(), value.to_owned()));
    assert(pairs(env@) =~= assigned(all, name@, value@));
}

/// The locale that forces UTF-8. There is no `C.UTF-8` on macOS.
pub open spec fn locale(macos: bool) -> Seq<char> {
    if macos {
        "en_US.UTF-8"@
    } else {
        "C.UTF-8"@
    }
}

/// The variables that every child gets.
pub open spec fn defaults(cols: u16, rows: u16, macos: bool) -> Env {
    seq![
        ("TERM"@, "xterm-256color"@),
        ("LC_ALL"@, locale(macos)),
        ("LANG"@, locale(macos)),
        ("COLUMNS"@, decimal(cols as nat)),
        ("LINES"@, decimal(rows as nat)),
        ("COLORTERM"@, "truecolor"@),
    ]
}

/// The variables that every child gets. Without them interactive CLIs degrade
/// to a terminal without colour or UTF-8.
pub fn child_env_defaults(cols: u16, rows: u16, macos: bool) -> (env: Vec<(&'static str, String)>)
    ensures
        env@.len() == 6,
        forall|i: int|
            0 <= i < 6 ==> (#[trigger] env@[i]).0@ == defaults(cols, rows, macos)[i].0
                && env@[i].1@ == defaults(cols, rows, macos)[i].1,
{
    let place: &'static str = if macos {
        "en_US.UTF-8"
    } else {
        "C.UTF-8"
    };
    let mut columns = String::new();
    push_u64(&mut columns, cols as u64);
    assert(columns@ =~= decimal(cols as nat));
    let mut lines = String::new();
    push_u64(&mut lines, rows as u64);
    assert(lines@ =~= decimal(rows as nat));
    let mut env: Vec<(&'static str, String)> = Vec::new();
    env.push(("TERM", "xterm-256color".to_owned()));
    env.push(("LC_ALL", place.to_owned()));
    env.push(("LANG", place.to_owned()));
    env.push(("COLUMNS", columns));
    env.push(("LINES", lines));
    env.push(("COLORTERM", "truecolor".to_owned()));
    env
}

/// An ASCII letter in lower case, any other character as it is.
pub open spec fn ascii_lower(c: char) -> char {
    if 'A' <= c <= 'Z' {
        (c as u32 + 32) as char
    } else {
        c
    }
}

/// Whether two names are the same but for the case of ASCII letters.
pub open spec fn same_but_case(a: Seq<char>, b: Seq<char>) -> bool {
    &&& a.len() == b.len()
    &&& forall|i: int| 0 <= i < a.len() ==> ascii_lower(#[trigger] a[i]) == ascii_lower(b[i])
}

/// The code of an ASCII letter in lower case, or of any other character.
fn lower_code(c: char) -> (code: u32)
    ensures
        code as int == ascii_lower(c) as int,
{
    let code: u32 = code_of(c);
    if 65 <= code && code <= 90 {
        code + 32
    } else {
        code
    }
}

/// Whether two names are the same but for the case of ASCII letters.
pub fn eq_ignoring_case(a: &str, b: &str) -> (same: bool)
    ensures
        same == same_but_case(a@, b@),
{
    let x = chars_of(a);
    let y = chars_of(b);
    if x.len() != y.len() {
        return false;
    }
    let mut i: usize = 0;
    while i < x.len()
        invariant
            x@ == a@,
            y@ == b@,
            x@.len() == y@.len(),
            i <= x@.len(),
            forall|j: int| 0 <= j < i ==> ascii_lower(#[trigger] x@[j]) == ascii_lower(y@[j]),
        decreases x@.len() - i,
    {
        if lower_code(x[i]) != lower_code(y[i]) {
            assert(ascii_lower(a@[i as int]) != ascii_lower(b@[i as int]));
            return false;
        }
        i += 1;
    }
    true
}

/// Whether a variable's name is a given one. Names are case-insensitive on
/// Windows alone.
pub open spec fn names(name: Seq<char>, given: Seq<char>, windows: bool) -> bool {
    if windows {
        same_but_case(name, given)
    } else {
        name == given
    }
}

fn name_matches(name: &str, given: &str, windows: bool) -> (yes: bool)
    ensures
        yes == names(name@, given@, windows),
{
    if windows {
        eq_ignoring_case(name, given)
    } else {
        same_text(name, given)
    }
}

/// Whether a child keeps a variable of its parent: what a CLI needs to run and
/// to authenticate, and what a process cannot live without on Windows.
pub open spec fn carried(name: Seq<char>, windows: bool) -> bool {
    ||| names(name, "HOME"@, windows)
    ||| names(name, "PATH"@, windows)
    ||| names(name, "SHELL"@, windows)
    ||| names(name, "USER"@, windows)
    ||| names(name, "TMPDIR"@, windows)
    ||| names(name, "CLAUDE_CONFIG_DIR"@, windows)
    ||| names(name, "ANTHROPIC_API_KEY"@, windows)
    ||| (windows && carried_on_windows(name))
}

/// What a child keeps of its parent's variables on Windows alone.
pub open spec fn carried_on_windows(name: Seq<char>) -> bool {
    ||| same_but_case(name, "SYSTEMROOT"@)
    ||| same_but_case(name, "SYSTEMDRIVE"@)
    ||| same_but_case(name, "WINDIR"@)
    ||| same_but_case(name, "COMSPEC"@)
    ||| same_but_case(name, "PATHEXT"@)
    ||| same_but_case(name, "TEMP"@)
    ||| same_but_case(name, "TMP"@)
    ||| same_but_case(name, "USERPROFILE"@)
    ||| same_but_case(name, "USERNAME"@)
    ||| same_but_case(name, "HOMEDRIVE"@)
    ||| same_but_case(name, "HOMEPATH"@)
    ||| same_but_case(name, "APPDATA"@)
    ||| same_but_case(name, "LOCALAPPDATA"@)
    ||| same_but_case(name, "PROGRAMDATA"@)
}

/// Whether a child keeps a variable of its parent.
pub fn is_carried(name: &str, windows: bool) -> (yes: bool)
    ensures
        yes == carried(name@, windows),
{
    name_matches(name, "HOME", windows) || name_matches(name, "PATH", windows) || name_matches(
        name,
        "SHELL",
        windows,
    ) || name_matches(name, "USER", windows) || name_matches(name, "TMPDIR", windows)
        || name_matches(name, "CLAUDE_CONFIG_DIR", windows) || name_matches(
        name,
        "ANTHROPIC_API_KEY",
        windows,
    ) || (windows && (eq_ignoring_case(name, "SYSTEMROOT") || eq_ignoring_case(name, "SYSTEMDRIVE")
        || eq_ignoring_case(name, "WINDIR") || eq_ignoring_case(name, "COMSPEC")
        || eq_ignoring_case(name, "PATHEXT") || eq_ignoring_case(name, "TEMP") || eq_ignoring_case(
        name,
        "TMP",
    ) || eq_ignoring_case(name, "USERPROFILE") || eq_ignoring_case(name, "USERNAME")
        || eq_ignoring_case(name, "HOMEDRIVE") || eq_ignoring_case(name, "HOMEPATH")
        || eq_ignoring_case(name, "APPDATA") || eq_ignoring_case(name, "LOCALAPPDATA")
        || eq_ignoring_case(name, "PROGRAMDATA")))
}

/// The variables that a child keeps, in order.
pub open spec fn kept_of(parent: Env, windows: bool) -> Env
    decreases parent.len(),
{
    if parent.len() == 0 {
        Seq::empty()
    } else if carried(parent.last().0, windows) {
        kept_of(parent.drop_last(), windows).push(parent.last())
    } else {
        kept_of(parent.drop_last(), windows)
    }
}

/// An environment with the first `n` defaults set.
pub open spec fn with_defaults(env: Env, set: Env, n: nat) -> Env
    decreases n,
{
    if n == 0 || n > set.len() {
        env
    } else {
        assigned(with_defaults(env, set, (n - 1) as nat), set[n - 1].0, set[n - 1].1)
    }
}

/// The environment of a child: what it keeps, with the defaults set on top.
pub open spec fn composed(cols: u16, rows: u16, parent: Env, platform: Platform) -> Env {
    with_defaults(
        kept_of(parent, platform.windows),
        defaults(cols, rows, platform.macos),
        6,
    )
}

/// Compose the environment of a child.
pub fn compose_child_env(
    cols: u16,
    rows: u16,
    parent: &Vec<(String, String)>,
    platform: Platform,
) -> (env: Vec<(String, String)>)
    ensures
        pairs(env@) == composed(cols, rows, pairs(parent@), platform),
{
    let ghost all = pairs(parent@);
    let mut env: Vec<(String, String)> = Vec::new();
    let mut i: usize = 0;
    assert(all.take(0) =~= Seq::empty());
    assert(pairs(env@) =~= Seq::empty());
    while i < parent.len()
        invariant
            all == pairs(parent@),
            i <= parent@.len(),
            pairs(env@) == kept_of(all.take(i as int), platform.windows),
        decreases parent@.len() - i,
    {
        assert(all.take(i + 1).drop_last() =~= all.take(i as int));
        let ghost before = env@;
        let (name, value) = &parent[i];
        if is_carried(name.as_str(), platform.windows) {
            env.push((name.clone(), value.clone()));
            assert(pairs(env@) =~= pairs(before).push((name@, value@)));
        }
        i += 1;
    }
    assert(all.take(i as int) =~= all);
    let set = child_env_defaults(cols, rows, platform.macos);
    let ghost base = pairs(env@);
    let ghost wanted = defaults(cols, rows, platform.macos);
    let mut k: usize = 0;
    while k < set.len()
        invariant
            set@.len() == 6,
            wanted.len() == 6,
            forall|i: int|
                0 <= i < 6 ==> (#[trigger] set@[i]).0@ == wanted[i].0 && set@[i].1@ == wanted[i].1,
            k <= 6,
            pairs(env@) == with_defaults(base, wanted, k as nat),
        decreases 6 - k,
    {
        let (name, value) = &set[k];
        assign(&mut env, name, value.as_str());
        k += 1;
    }
    env
}

/// Whether a variable would break a child or reveal a leak: a nested-session
/// marker, a multiplexer's variable, or options for the runtime.
pub open spec fn forbidden(name: Seq<char>) -> bool {
    ||| name == "CLAUDECODE"@
    ||| name == "NODE_OPTIONS"@
    ||| begins_with(name, "CLAUDE_CODE_"@)
    ||| begins_with(name, "CMUX_"@)
}

/// Whether a variable would break a child or reveal a leak.
pub fn forbidden_env_name(name: &str) -> (yes: bool)
    ensures
        yes == forbidden(name@),
{
    same_text(name, "CLAUDECODE") || same_text(name, "NODE_OPTIONS") || starts_with(
        name,
        "CLAUDE_CODE_",
    ) || starts_with(name, "CMUX_")
}

/// The raw entries of an environment block: runs of bytes between zeros, none
/// empty.
pub open spec fn entries(raw: Seq<u8>) -> Seq<Seq<u8>>
    decreases raw.len(),
{
    if raw.len() == 0 {
        Seq::empty()
    } else {
        proof {
            lemma_cut(raw, 0u8);
        }
        let n = cut(raw, 0u8);
        let first = if n == 0 {
            Seq::empty()
        } else {
            seq![raw.take(n)]
        };
        if n < raw.len() {
            first + entries(raw.skip(n + 1))
        } else {
            first
        }
    }
}

/// The name of an entry: what stands before its first equals sign.
pub open spec fn entry_name(entry: Seq<u8>) -> Seq<char> {
    lossy(entry.take(cut(entry, 0x3du8)))
}

/// The forbidden names among entries, in order.
pub open spec fn offending(list: Seq<Seq<u8>>) -> Seq<Seq<char>>
    decreases list.len(),
{
    if list.len() == 0 {
        Seq::empty()
    } else if forbidden(entry_name(list.last())) {
        offending(list.drop_last()).push(entry_name(list.last()))
    } else {
        offending(list.drop_last())
    }
}

/// The index of the first such byte from `from` on, or the length.
fn find_byte(raw: &[u8], from: usize, byte: u8) -> (at: usize)
    requires
        from <= raw@.len(),
    ensures
        from <= at <= raw@.len(),
        at - from == cut(raw@.skip(from as int), byte),
{
    let mut i: usize = from;
    while i < raw.len() && raw[i] != byte
        invariant
            from <= i <= raw@.len(),
            cut(raw@.skip(from as int), byte) == (i - from) + cut(raw@.skip(i as int), byte),
        decreases raw@.len() - i,
    {
        assert(raw@.skip(i as int).drop_first() =~= raw@.skip(i + 1));
        i += 1;
    }
    i
}

/// What reading a child's environment back finds.
pub open spec fn hygiene(pid: nat, raw: Seq<u8>) -> Result<Seq<char>, Seq<char>> {
    let list = entries(raw);
    if offending(list).len() == 0 {
        Ok(
            "/proc/"@ + decimal(pid) + "/environ read directly: "@ + decimal(list.len())
                + " variables, no nested-session markers (CLAUDE_CODE_*, CLAUDECODE, CMUX_*, NODE_OPTIONS all absent)"@,
        )
    } else {
        Err(
            "child environment carries forbidden markers: "@ + joined(offending(list), ", "@)
                + " \u{2014} the spawn path leaked them past the composed allowlist"@,
        )
    }
}

/// Verify a child's environment, read back as a block of bytes.
pub fn verify_env_hygiene(pid: u32, raw: &[u8]) -> (r: Result<String, String>)
    ensures
        match r {
            Ok(text) => hygiene(pid as nat, raw@) == Ok::<Seq<char>, Seq<char>>(text@),
            Err(text) => hygiene(pid as nat, raw@) == Err::<Seq<char>, Seq<char>>(text@),
        },
{
    broadcast use crate::report::lemma_texts_push;

    let mut count: usize = 0;
    let mut found: Vec<String> = Vec::new();
    let mut at: usize = 0;
    let ghost mut done: Seq<Seq<u8>> = Seq::empty();
    assert(raw@.skip(0) =~= raw@);
    assert(done + entries(raw@) =~= entries(raw@));
    assert(texts(found@) =~= Seq::empty());
    while at < raw.len()
        invariant
            at <= raw@.len(),
            count <= at,
            count == done.len(),
            texts(found@) == offending(done),
            done + entries(raw@.skip(at as int)) == entries(raw@),
        decreases raw@.len() - at,
    {
        broadcast use crate::report::lemma_texts_push;

        let ghost rest = raw@.skip(at as int);
        let ghost before = done;
        let end = find_byte(raw, at, 0);
        if end > at {
            let entry = vstd::slice::slice_subrange(raw, at, end);
            assert(entry@ =~= rest.take(end - at));
            let stop = find_byte(entry, 0, 0x3d);
            assert(entry@.skip(0) =~= entry@);
            let text = vstd::slice::slice_subrange(entry, 0, stop);
            assert(text@ =~= entry@.take(stop as int));
            let name = decode_lossy(text);
            count += 1;
            proof {
                done = done.push(entry@);
                assert(done.drop_last() =~= before);
            }
            if forbidden_env_name(name.as_str()) {
                found.push(name);
            }
        }
        if end < raw.len() {
            at = end + 1;
            proof {
                let from = raw@.len() - rest.len();
                assert(rest.skip(end - from + 1) =~= raw@.skip(at as int));
                assert(done + entries(raw@.skip(at as int)) =~= before + entries(rest));
            }
        } else {
            at = raw.len();
            proof {
                assert(raw@.skip(at as int) =~= Seq::<u8>::empty());
                assert(done + entries(raw@.skip(at as int)) =~= before + entries(rest));
            }
        }
    }
    assert(raw@.skip(at as int) =~= Seq::<u8>::empty());
    assert(done =~= entries(raw@));
    if found.len() == 0 {
        let mut text = "/proc/".to_owned();
        push_u64(&mut text, pid as u64);
        text.append("/environ read directly: ");
        push_usize(&mut text, count);
        text.append(
            " variables, no nested-session markers (CLAUDE_CODE_*, CLAUDECODE, CMUX_*, NODE_OPTIONS all absent)",
        );
        Ok(text)
    } else {
        let mut text = "child environment carries forbidden markers: ".to_owned();
        text.append(join(&found, ", ").as_str());
        text.append(" \u{2014} the spawn path leaked them past the composed allowlist");
        Err(text)
    }
}

/// Whether no name like this one, in any case, is forbidden.
spec fn harmless(given: Seq<char>) -> bool {
    &&& given.len() >= 3
    &&& {
        let first = ascii_lower(given[0]);
        let second = ascii_lower(given[1]);
        ||| first != 'c' && first != 'n'
        ||| first == 'c' && second != 'l' && second != 'm'
        ||| first == 'c' && second == 'l' && given.len() > 12 && ascii_lower(given[9]) != 'd'
    }
}

proof fn lemma_harmless(name: Seq<char>, given: Seq<char>, windows: bool)
    requires
        harmless(given),
        names(name, given, windows),
    ensures
        !forbidden(name),
{
    reveal_strlit("CLAUDECODE");
    reveal_strlit("NODE_OPTIONS");
    reveal_strlit("CLAUDE_CODE_");
    reveal_strlit("CMUX_");
    assert(ascii_lower(name[0]) == ascii_lower(given[0]));
    assert(ascii_lower(name[1]) == ascii_lower(given[1]));
    if begins_with(name, "CLAUDE_CODE_"@) {
        let head = name.subrange(0, 12);
        assert(head[0] == name[0] && head[1] == name[1] && head[9] == name[9]);
        assert(ascii_lower(name[9]) == ascii_lower(given[9]));
    }
    if begins_with(name, "CMUX_"@) {
        let head = name.subrange(0, 5);
        assert(head[0] == name[0] && head[1] == name[1]);
    }
}

/// No variable that a child keeps is forbidden.
pub proof fn lemma_carried_is_not_forbidden(name: Seq<char>, windows: bool)
    requires
        carried(name, windows),
    ensures
        !forbidden(name),
{
    reveal_strlit("HOME");
    reveal_strlit("PATH");
    reveal_strlit("SHELL");
    reveal_strlit("USER");
    reveal_strlit("TMPDIR");
    reveal_strlit("CLAUDE_CONFIG_DIR");
    reveal_strlit("ANTHROPIC_API_KEY");
    if names(name, "HOME"@, windows) {
        lemma_harmless(name, "HOME"@, windows);
    } else if names(name, "PATH"@, windows) {
        lemma_harmless(name, "PATH"@, windows);
    } else if names(name, "SHELL"@, windows) {
        lemma_harmless(name, "SHELL"@, windows);
    } else if names(name, "USER"@, windows) {
        lemma_harmless(name, "USER"@, windows);
    } else if names(name, "TMPDIR"@, windows) {
        lemma_harmless(name, "TMPDIR"@, windows);
    } else if names(name, "CLAUDE_CONFIG_DIR"@, windows) {
        lemma_harmless(name, "CLAUDE_CONFIG_DIR"@, windows);
    } else if names(name, "ANTHROPIC_API_KEY"@, windows) {
        lemma_harmless(name, "ANTHROPIC_API_KEY"@, windows);
    } else {
        lemma_carried_on_windows(name);
    }
}

proof fn lemma_carried_on_windows(name: Seq<char>)
    requires
        carried_on_windows(name),
    ensures
        !forbidden(name),
{
    reveal_strlit("SYSTEMROOT");
    reveal_strlit("SYSTEMDRIVE");
    reveal_strlit("WINDIR");
    reveal_strlit("COMSPEC");
    reveal_strlit("PATHEXT");
    reveal_strlit("TEMP");
    reveal_strlit("TMP");
    reveal_strlit("USERPROFILE");
    reveal_strlit("USERNAME");
    reveal_strlit("HOMEDRIVE");
    reveal_strlit("HOMEPATH");
    reveal_strlit("APPDATA");
    reveal_strlit("LOCALAPPDATA");
    reveal_strlit("PROGRAMDATA");
    if same_but_case(name, "SYSTEMROOT"@) {
        lemma_harmless(name, "SYSTEMROOT"@, true);
    } else if same_but_case(name, "SYSTEMDRIVE"@) {
        lemma_harmless(name, "SYSTEMDRIVE"@, true);
    } else if same_but_case(name, "WINDIR"@) {
        lemma_harmless(name, "WINDIR"@, true);
    } else if same_but_case(name, "COMSPEC"@) {
        lemma_harmless(name, "COMSPEC"@, true);
    } else if same_but_case(name, "PATHEXT"@) {
        lemma_harmless(name, "PATHEXT"@, true);
    } else if same_but_case(name, "TEMP"@) {
        lemma_harmless(name, "TEMP"@, true);
    } else if same_but_case(name, "TMP"@) {
        lemma_harmless(name, "TMP"@, true);
    } else if same_but_case(name, "USERPROFILE"@) {
        lemma_harmless(name, "USERPROFILE"@, true);
    } else if same_but_case(name, "USERNAME"@) {
        lemma_harmless(name, "USERNAME"@, true);
    } else if same_but_case(name, "HOMEDRIVE"@) {
        lemma_harmless(name, "HOMEDRIVE"@, true);
    } else if same_but_case(name, "HOMEPATH"@) {
        lemma_harmless(name, "HOMEPATH"@, true);
    } else if same_but_case(name, "APPDATA"@) {
        lemma_harmless(name, "APPDATA"@, true);
    } else if same_but_case(name, "LOCALAPPDATA"@) {
        lemma_harmless(name, "LOCALAPPDATA"@, true);
    } else {
        lemma_harmless(name, "PROGRAMDATA"@, true);
    }
}

/// Setting a variable adds no other name.
proof fn lemma_assigned_names(env: Env, name: Seq<char>, value: Seq<char>)
    ensures
        assigned(env, name, value).len() >= env.len(),
        forall|j: int|
            0 <= j < assigned(env, name, value).len() ==> (#[trigger] assigned(
                env,
                name,
                value,
            )[j]).0 == name || (j < env.len() && assigned(env, name, value)[j].0 == env[j].0),
    decreases env.len(),
{
    if env.len() > 0 {
        let rest = env.drop_first();
        lemma_assigned_names(rest, name, value);
        let after = assigned(env, name, value);
        assert forall|j: int| 0 <= j < after.len() implies (#[trigger] after[j]).0 == name || (j
            < env.len() && after[j].0 == env[j].0) by {
            if env[0].0 == name {
                if j > 0 {
                    assert(after[j] == env[j]);
                }
            } else if j > 0 {
                let tail = assigned(rest, name, value);
                assert(after[j] == tail[j - 1]);
                assert(tail[j - 1].0 == name || (j - 1 < rest.len() && tail[j - 1].0 == rest[j
                    - 1].0));
            }
        }
    }
}

/// A set variable has its value, and no other variable changes.
pub proof fn lemma_assigned_value(
    env: Env,
    name: Seq<char>,
    value: Seq<char>,
    other: Seq<char>,
)
    ensures
        value_of(assigned(env, name, value), name) == Some(value),
        other != name ==> value_of(assigned(env, name, value), other) == value_of(env, other),
    decreases env.len(),
{
    let after = assigned(env, name, value);
    if env.len() == 0 {
        assert(after.drop_first() =~= env);
    } else {
        let rest = env.drop_first();
        lemma_assigned_value(rest, name, value, other);
        if env[0].0 == name {
            assert(after.drop_first() =~= rest);
        } else {
            assert(after.drop_first() =~= assigned(rest, name, value));
        }
    }
}

/// Every kept variable is one that is carried.
proof fn lemma_kept_is_carried(parent: Env, windows: bool, i: int)
    requires
        0 <= i < kept_of(parent, windows).len(),
    ensures
        carried(kept_of(parent, windows)[i].0, windows),
    decreases parent.len(),
{
    let before = kept_of(parent.drop_last(), windows);
    if i < before.len() {
        lemma_kept_is_carried(parent.drop_last(), windows, i);
    }
}

/// The names of the first `n` defaults and of what was kept: nothing else.
proof fn lemma_composed_names(env: Env, set: Env, n: nat, i: int)
    requires
        n <= set.len(),
        0 <= i < with_defaults(env, set, n).len(),
    ensures
        (exists|k: int| 0 <= k < set.len() && set[k].0 == with_defaults(env, set, n)[i].0) || (
        exists|k: int| 0 <= k < env.len() && env[k].0 == with_defaults(env, set, n)[i].0),
    decreases n,
{
    if n > 0 {
        let before = with_defaults(env, set, (n - 1) as nat);
        lemma_assigned_names(before, set[n - 1].0, set[n - 1].1);
        let after = with_defaults(env, set, n);
        assert(after[i].0 == set[n - 1].0 || (i < before.len() && after[i].0 == before[i].0));
        if after[i].0 != set[n - 1].0 {
            lemma_composed_names(env, set, (n - 1) as nat, i);
        }
    } else {
        assert(env[i].0 == with_defaults(env, set, n)[i].0);
    }
}

/// Whatever the parent's environment holds, no forbidden variable reaches the
/// child: what reaches it is carried or a terminal default.
pub proof fn law_no_marker_reaches_the_child(
    cols: u16,
    rows: u16,
    parent: Env,
    platform: Platform,
    i: int,
)
    requires
        0 <= i < composed(cols, rows, parent, platform).len(),
    ensures
        ({
            let name = composed(cols, rows, parent, platform)[i].0;
            &&& !forbidden(name)
            &&& carried(name, platform.windows) || (exists|k: int|
                0 <= k < 6 && defaults(cols, rows, platform.macos)[k].0 == name)
        }),
{
    let kept = kept_of(parent, platform.windows);
    let set = defaults(cols, rows, platform.macos);
    let name = composed(cols, rows, parent, platform)[i].0;
    lemma_composed_names(kept, set, 6, i);
    if exists|k: int| 0 <= k < kept.len() && kept[k].0 == name {
        let k = choose|k: int| 0 <= k < kept.len() && kept[k].0 == name;
        lemma_kept_is_carried(parent, platform.windows, k);
        lemma_carried_is_not_forbidden(name, platform.windows);
    } else {
        let k = choose|k: int| 0 <= k < set.len() && set[k].0 == name;
        lemma_default_names();
        lemma_harmless(name, set[k].0, false);
    }
}

/// The names of the defaults: none forbidden, no two the same.
proof fn lemma_default_names()
    ensures
        forall|cols: u16, rows: u16, macos: bool, k: int|
            0 <= k < 6 ==> harmless(#[trigger] defaults(cols, rows, macos)[k].0) && !shaped(
                defaults(cols, rows, macos)[k].0,
            ),
        forall|cols: u16, rows: u16, macos: bool, j: int, k: int|
            0 <= j < k < 6 ==> #[trigger] defaults(cols, rows, macos)[j].0 != #[trigger] defaults(
                cols,
                rows,
                macos,
            )[k].0,
{
    reveal_strlit("TERM");
    reveal_strlit("LC_ALL");
    reveal_strlit("LANG");
    reveal_strlit("COLUMNS");
    reveal_strlit("LINES");
    reveal_strlit("COLORTERM");
    assert("TERM"@[0] != "LANG"@[0]);
    assert forall|cols: u16, rows: u16, macos: bool, j: int, k: int| 0 <= j < k < 6 implies
        #[trigger] defaults(cols, rows, macos)[j].0 != #[trigger] defaults(
        cols,
        rows,
        macos,
    )[k].0 by {
        let set = defaults(cols, rows, macos);
        if set[j].0 == set[k].0 {
            assert(set[j].0.len() == set[k].0.len());
            assert(set[0].0.len() == 4 && set[1].0.len() == 6 && set[2].0.len() == 4);
            assert(set[3].0.len() == 7 && set[4].0.len() == 5 && set[5].0.len() == 9);
        }
    }
}

/// What every carried name looks like, as far as it tells the defaults apart
/// from them.
spec fn shaped(name: Seq<char>) -> bool {
    &&& name.len() >= 3
    &&& {
        let first = ascii_lower(name[0]);
        let third = ascii_lower(name[2]);
        &&& first == 't' ==> name.len() == 6 || name.len() == 3 || (name.len() == 4 && third
            == 'm')
        &&& first == 'c' ==> name.len() == 17 || (name.len() == 7 && third == 'm')
        &&& first == 'l' ==> name.len() == 12
    }
}

proof fn lemma_shaped_alike(name: Seq<char>, given: Seq<char>, windows: bool)
    requires
        names(name, given, windows),
        shaped(given),
    ensures
        shaped(name),
{
    assert(ascii_lower(name[0]) == ascii_lower(given[0]));
    assert(ascii_lower(name[2]) == ascii_lower(given[2]));
}

proof fn lemma_carried_is_shaped(name: Seq<char>, windows: bool)
    requires
        carried(name, windows),
    ensures
        shaped(name),
{
    reveal_strlit("HOME");
    reveal_strlit("PATH");
    reveal_strlit("SHELL");
    reveal_strlit("USER");
    reveal_strlit("TMPDIR");
    reveal_strlit("CLAUDE_CONFIG_DIR");
    reveal_strlit("ANTHROPIC_API_KEY");
    if names(name, "HOME"@, windows) {
        lemma_shaped_alike(name, "HOME"@, windows);
    } else if names(name, "PATH"@, windows) {
        lemma_shaped_alike(name, "PATH"@, windows);
    } else if names(name, "SHELL"@, windows) {
        lemma_shaped_alike(name, "SHELL"@, windows);
    } else if names(name, "USER"@, windows) {
        lemma_shaped_alike(name, "USER"@, windows);
    } else if names(name, "TMPDIR"@, windows) {
        lemma_shaped_alike(name, "TMPDIR"@, windows);
    } else if names(name, "CLAUDE_CONFIG_DIR"@, windows) {
        lemma_shaped_alike(name, "CLAUDE_CONFIG_DIR"@, windows);
    } else if names(name, "ANTHROPIC_API_KEY"@, windows) {
        lemma_shaped_alike(name, "ANTHROPIC_API_KEY"@, windows);
    } else {
        lemma_carried_on_windows_is_shaped(name);
    }
}

proof fn lemma_carried_on_windows_is_shaped(name: Seq<char>)
    requires
        carried_on_windows(name),
    ensures
        shaped(name),
{
    reveal_strlit("SYSTEMROOT");
    reveal_strlit("SYSTEMDRIVE");
    reveal_strlit("WINDIR");
    reveal_strlit("COMSPEC");
    reveal_strlit("PATHEXT");
    reveal_strlit("TEMP");
    reveal_strlit("TMP");
    reveal_strlit("USERPROFILE");
    reveal_strlit("USERNAME");
    reveal_strlit("HOMEDRIVE");
    reveal_strlit("HOMEPATH");
    reveal_strlit("APPDATA");
    reveal_strlit("LOCALAPPDATA");
    reveal_strlit("PROGRAMDATA");
    if same_but_case(name, "SYSTEMROOT"@) {
        lemma_shaped_alike(name, "SYSTEMROOT"@, true);
    } else if same_but_case(name, "SYSTEMDRIVE"@) {
        lemma_shaped_alike(name, "SYSTEMDRIVE"@, true);
    } else if same_but_case(name, "WINDIR"@) {
        lemma_shaped_alike(name, "WINDIR"@, true);
    } else if same_but_case(name, "COMSPEC"@) {
        lemma_shaped_alike(name, "COMSPEC"@, true);
    } else if same_but_case(name, "PATHEXT"@) {
        lemma_shaped_alike(name, "PATHEXT"@, true);
    } else if same_but_case(name, "TEMP"@) {
        lemma_shaped_alike(name, "TEMP"@, true);
    } else if same_but_case(name, "TMP"@) {
        lemma_shaped_alike(name, "TMP"@, true);
    } else if same_but_case(name, "USERPROFILE"@) {
        lemma_shaped_alike(name, "USERPROFILE"@, true);
    } else if same_but_case(name, "USERNAME"@) {
        lemma_shaped_alike(name, "USERNAME"@, true);
    } else if same_but_case(name, "HOMEDRIVE"@) {
        lemma_shaped_alike(name, "HOMEDRIVE"@, true);
    } else if same_but_case(name, "HOMEPATH"@) {
        lemma_shaped_alike(name, "HOMEPATH"@, true);
    } else if same_but_case(name, "APPDATA"@) {
        lemma_shaped_alike(name, "APPDATA"@, true);
    } else if same_but_case(name, "LOCALAPPDATA"@) {
        lemma_shaped_alike(name, "LOCALAPPDATA"@, true);
    } else {
        lemma_shaped_alike(name, "PROGRAMDATA"@, true);
    }
}

proof fn lemma_defaults_value(env: Env, set: Env, n: nat, k: int)
    requires
        n <= set.len(),
        0 <= k < n,
        forall|i: int, j: int| 0 <= i < j < set.len() ==> #[trigger] set[i].0 != #[trigger] set[j].0,
    ensures
        value_of(with_defaults(env, set, n), set[k].0) == Some(set[k].1),
    decreases n,
{
    let before = with_defaults(env, set, (n - 1) as nat);
    lemma_assigned_value(before, set[n - 1].0, set[n - 1].1, set[k].0);
    if k < n - 1 {
        assert(set[k].0 != set[n - 1].0);
        lemma_defaults_value(env, set, (n - 1) as nat, k);
    }
}

/// Whether at most one variable has that name.
pub open spec fn at_most_one(env: Env, name: Seq<char>) -> bool {
    forall|i: int, j: int|
        0 <= i < j < env.len() ==> (#[trigger] env[i]).0 != name || (#[trigger] env[j]).0 != name
}

proof fn lemma_assigned_once(env: Env, name: Seq<char>, value: Seq<char>, other: Seq<char>)
    requires
        at_most_one(env, other),
    ensures
        at_most_one(assigned(env, name, value), other),
    decreases env.len(),
{
    let after = assigned(env, name, value);
    if env.len() > 0 {
        let rest = env.drop_first();
        assert forall|i: int, j: int| 0 <= i < j < rest.len() implies (#[trigger] rest[i]).0
            != other || (#[trigger] rest[j]).0 != other by {
            assert(rest[i] == env[i + 1] && rest[j] == env[j + 1]);
        }
        lemma_assigned_once(rest, name, value, other);
        let tail = assigned(rest, name, value);
        lemma_assigned_names(rest, name, value);
        assert forall|i: int, j: int| 0 <= i < j < after.len() implies (#[trigger] after[i]).0
            != other || (#[trigger] after[j]).0 != other by {
            if env[0].0 == name {
                assert(after[j] == env[j]);
                assert(after[i].0 == env[i].0);
            } else {
                assert(after[j] == tail[j - 1]);
                if i > 0 {
                    assert(after[i] == tail[i - 1]);
                } else if env[0].0 == other {
                    assert(tail[j - 1].0 == name || (j - 1 < rest.len() && tail[j - 1].0 == rest[j
                        - 1].0));
                    if tail[j - 1].0 != name {
                        assert(rest[j - 1] == env[j]);
                    }
                }
            }
        }
    }
}

proof fn lemma_defaults_once(env: Env, set: Env, n: nat, name: Seq<char>)
    requires
        n <= set.len(),
        at_most_one(env, name),
    ensures
        at_most_one(with_defaults(env, set, n), name),
    decreases n,
{
    if n > 0 {
        lemma_defaults_once(env, set, (n - 1) as nat, name);
        lemma_assigned_once(
            with_defaults(env, set, (n - 1) as nat),
            set[n - 1].0,
            set[n - 1].1,
            name,
        );
    }
}

/// The terminal defaults win over whatever the parent's environment holds, and
/// stand once.
pub proof fn law_the_terminal_defaults_win(
    cols: u16,
    rows: u16,
    parent: Env,
    platform: Platform,
    k: int,
)
    requires
        0 <= k < 6,
    ensures
        ({
            let env = composed(cols, rows, parent, platform);
            let set = defaults(cols, rows, platform.macos);
            &&& value_of(env, set[k].0) == Some(set[k].1)
            &&& at_most_one(env, set[k].0)
        }),
{
    let kept = kept_of(parent, platform.windows);
    let set = defaults(cols, rows, platform.macos);
    lemma_default_names();
    lemma_defaults_value(kept, set, 6, k);
    assert forall|i: int, j: int| 0 <= i < j < kept.len() implies (#[trigger] kept[i]).0
        != set[k].0 || (#[trigger] kept[j]).0 != set[k].0 by {
        lemma_kept_is_carried(parent, platform.windows, i);
        lemma_carried_is_shaped(kept[i].0, platform.windows);
    }
    lemma_defaults_once(kept, set, 6, set[k].0);
}

proof fn lemma_value_push(env: Env, last: (Seq<char>, Seq<char>), name: Seq<char>)
    ensures
        value_of(env.push(last), name) == match value_of(env, name) {
            Some(value) => Some(value),
            None => if last.0 == name {
                Some(last.1)
            } else {
                None
            },
        },
    decreases env.len(),
{
    let all = env.push(last);
    if env.len() == 0 {
        assert(all.drop_first() =~= Seq::empty());
    } else {
        assert(all.drop_first() =~= env.drop_first().push(last));
        lemma_value_push(env.drop_first(), last, name);
    }
}

proof fn lemma_kept_value(parent: Env, windows: bool, name: Seq<char>)
    requires
        carried(name, windows),
    ensures
        value_of(kept_of(parent, windows), name) == value_of(parent, name),
    decreases parent.len(),
{
    if parent.len() > 0 {
        let before = parent.drop_last();
        lemma_kept_value(before, windows, name);
        assert(parent =~= before.push(parent.last()));
        lemma_value_push(before, parent.last(), name);
        lemma_value_push(kept_of(before, windows), parent.last(), name);
    }
}

proof fn lemma_defaults_spare(env: Env, set: Env, n: nat, name: Seq<char>)
    requires
        n <= set.len(),
        forall|i: int| 0 <= i < set.len() ==> (#[trigger] set[i]).0 != name,
    ensures
        value_of(with_defaults(env, set, n), name) == value_of(env, name),
    decreases n,
{
    if n > 0 {
        lemma_defaults_spare(env, set, (n - 1) as nat, name);
        assert(set[n - 1].0 != name);
        lemma_assigned_value(
            with_defaults(env, set, (n - 1) as nat),
            set[n - 1].0,
            set[n - 1].1,
            name,
        );
    }
}

/// What a CLI needs to run and to authenticate reaches the child as the parent
/// has it: the strip does not sterilise.
pub proof fn law_carried_variables_survive(
    cols: u16,
    rows: u16,
    parent: Env,
    platform: Platform,
    name: Seq<char>,
)
    requires
        carried(name, platform.windows),
    ensures
        value_of(composed(cols, rows, parent, platform), name) == value_of(parent, name),
{
    let set = defaults(cols, rows, platform.macos);
    lemma_default_names();
    lemma_carried_is_shaped(name, platform.windows);
    lemma_kept_value(parent, platform.windows, name);
    assert forall|i: int| 0 <= i < set.len() implies (#[trigger] set[i]).0 != name by {
        assert(!shaped(defaults(cols, rows, platform.macos)[i].0));
    }
    lemma_defaults_spare(kept_of(parent, platform.windows), set, 6, name);
}

/// Off Windows a child keeps exactly these variables, in this writing.
pub proof fn law_what_a_child_keeps(name: Seq<char>)
    ensures
        carried(name, false) <==> name == "HOME"@ || name == "PATH"@ || name == "SHELL"@ || name
            == "USER"@ || name == "TMPDIR"@ || name == "CLAUDE_CONFIG_DIR"@ || name
            == "ANTHROPIC_API_KEY"@,
        carried(name, false) ==> carried(name, true),
{
    assert(forall|given: Seq<char>| name == given ==> #[trigger] names(name, given, true));
}

/// On Windows the case of a name's letters makes no difference.
pub proof fn law_case_makes_no_difference_on_windows(a: Seq<char>, b: Seq<char>)
    requires
        a.len() == b.len(),
        forall|i: int| #![trigger a[i]]
            0 <= i < a.len() ==> a[i] == b[i] || ('A' <= a[i] <= 'Z' && b[i] as int == a[i] as int
                + 32) || ('A' <= b[i] <= 'Z' && a[i] as int == b[i] as int + 32),
    ensures
        same_but_case(a, b),
        carried(a, true) <==> carried(b, true),
{
    assert forall|i: int| 0 <= i < a.len() implies ascii_lower(#[trigger] a[i]) == ascii_lower(
        b[i],
    ) by {}
    assert forall|given: Seq<char>| #[trigger] same_but_case(a, given) == same_but_case(
        b,
        given,
    ) by {
        if same_but_case(a, given) {
            assert forall|i: int| 0 <= i < b.len() implies ascii_lower(#[trigger] b[i])
                == ascii_lower(given[i]) by {
                assert(ascii_lower(a[i]) == ascii_lower(given[i]));
            }
        }
        if same_but_case(b, given) {
            assert forall|i: int| 0 <= i < a.len() implies ascii_lower(#[trigger] a[i])
                == ascii_lower(given[i]) by {
                assert(ascii_lower(b[i]) == ascii_lower(given[i]));
            }
        }
    }
}

/// A child keeps of its parent's variables those that are carried, in their order
/// and each as it was.
pub proof fn law_kept_variables_are_those_carried(parent: Env, windows: bool)
    ensures
        kept_of(parent, windows) == parent.filter(
            |p: (Seq<char>, Seq<char>)| carried(p.0, windows),
        ),
    decreases parent.len(),
{
    let keep = |p: (Seq<char>, Seq<char>)| carried(p.0, windows);
    reveal(Seq::filter);
    if parent.len() > 0 {
        law_kept_variables_are_those_carried(parent.drop_last(), windows);
    }
}

/// What every child gets: a colour terminal in UTF-8, of the given size.
pub proof fn law_what_every_child_gets(cols: u16, rows: u16, parent: Env, platform: Platform)
    ensures
        ({
            let env = composed(cols, rows, parent, platform);
            let utf8 = if platform.macos {
                "en_US.UTF-8"@
            } else {
                "C.UTF-8"@
            };
            &&& value_of(env, "TERM"@) == Some("xterm-256color"@)
            &&& value_of(env, "COLORTERM"@) == Some("truecolor"@)
            &&& value_of(env, "LC_ALL"@) == Some(utf8)
            &&& value_of(env, "LANG"@) == Some(utf8)
            &&& value_of(env, "COLUMNS"@) == Some(decimal(cols as nat))
            &&& value_of(env, "LINES"@) == Some(decimal(rows as nat))
        }),
{
    law_the_terminal_defaults_win(cols, rows, parent, platform, 0);
    law_the_terminal_defaults_win(cols, rows, parent, platform, 1);
    law_the_terminal_defaults_win(cols, rows, parent, platform, 2);
    law_the_terminal_defaults_win(cols, rows, parent, platform, 3);
    law_the_terminal_defaults_win(cols, rows, parent, platform, 4);
    law_the_terminal_defaults_win(cols, rows, parent, platform, 5);
}

/// An environment block is taken apart at its zeros, and what is empty between two
/// is no entry.
pub proof fn law_entries_stand_between_zeros(entry: Seq<u8>, rest: Seq<u8>)
    requires
        !entry.contains(0u8),
    ensures
        entry.len() > 0 ==> entries(entry) == seq![entry],
        entry.len() == 0 ==> entries(entry) == Seq::<Seq<u8>>::empty(),
        entries(entry.push(0u8) + rest) == entries(entry) + entries(rest),
{
    let all = entry.push(0u8) + rest;
    assert forall|i: int| 0 <= i < entry.len() implies entry[i] != 0u8 && all[i] != 0u8 by {
        assert(all[i] == entry[i] && entry.contains(entry[i]));
    }
    lemma_cut_at(all, 0u8, entry.len() as int);
    lemma_cut_at(entry, 0u8, entry.len() as int);
    assert(all.take(entry.len() as int) =~= entry);
    assert(all.skip(entry.len() as int + 1) =~= rest);
    assert(entry.take(entry.len() as int) =~= entry);
    assert(entries(all) =~= entries(entry) + entries(rest));
}

/// A child is clean exactly when no entry's name, which is what stands before its
/// first equals sign, is forbidden; every one that is is named, in order.
pub proof fn law_every_forbidden_name_is_reported(pid: nat, raw: Seq<u8>)
    ensures
        offending(entries(raw)) == entries(raw).map_values(|e: Seq<u8>| entry_name(e)).filter(
            |n: Seq<char>| forbidden(n),
        ),
        hygiene(pid, raw) is Ok <==> forall|i: int|
            0 <= i < entries(raw).len() ==> !forbidden(entry_name(#[trigger] entries(raw)[i])),
{
    lemma_offending(entries(raw));
    lemma_offending_none(entries(raw));
}

proof fn lemma_offending(list: Seq<Seq<u8>>)
    ensures
        offending(list) == list.map_values(|e: Seq<u8>| entry_name(e)).filter(
            |n: Seq<char>| forbidden(n),
        ),
    decreases list.len(),
{
    reveal(Seq::filter);
    let all = list.map_values(|e: Seq<u8>| entry_name(e));
    if list.len() > 0 {
        lemma_offending(list.drop_last());
        assert(all.drop_last() =~= list.drop_last().map_values(|e: Seq<u8>| entry_name(e)));
        assert(all.last() == entry_name(list.last()));
    }
}

proof fn lemma_offending_none(list: Seq<Seq<u8>>)
    ensures
        offending(list).len() == 0 <==> forall|i: int|
            0 <= i < list.len() ==> !forbidden(entry_name(#[trigger] list[i])),
    decreases list.len(),
{
    if list.len() > 0 {
        let front = list.drop_last();
        lemma_offending_none(front);
        assert(list[list.len() - 1] == list.last());
        if offending(list).len() == 0 {
            assert forall|i: int| 0 <= i < list.len() implies !forbidden(
                entry_name(#[trigger] list[i]),
            ) by {
                if i < front.len() {
                    assert(front[i] == list[i]);
                }
            }
        }
        if forall|i: int| 0 <= i < list.len() ==> !forbidden(entry_name(#[trigger] list[i])) {
            assert forall|i: int| 0 <= i < front.len() implies !forbidden(
                entry_name(#[trigger] front[i]),
            ) by {
                assert(front[i] == list[i]);
            }
        }
    }
}

/// An entry's name is what stands before its first equals sign, and a name is
/// forbidden when it marks a nested session, a multiplexer or runtime options.
pub proof fn law_an_entry_is_named_before_its_equals_sign(name: Seq<u8>, value: Seq<u8>)
    requires
        !name.contains(0x3du8),
    ensures
        entry_name(name.push(0x3du8) + value) == lossy(name),
        entry_name(name) == lossy(name),
        forall|n: Seq<char>| #[trigger]
            forbidden(n) <==> n == "CLAUDECODE"@ || n == "NODE_OPTIONS"@ || begins_with(
                n,
                "CLAUDE_CODE_"@,
            ) || begins_with(n, "CMUX_"@),
{
    let all = name.push(0x3du8) + value;
    assert forall|i: int| 0 <= i < name.len() implies name[i] != 0x3du8 && all[i] != 0x3du8 by {
        assert(all[i] == name[i] && name.contains(name[i]));
    }
    lemma_cut_at(all, 0x3du8, name.len() as int);
    lemma_cut_at(name, 0x3du8, name.len() as int);
    assert(all.take(name.len() as int) =~= name);
    assert(name.take(name.len() as int) =~= name);
}

} // verus!
