use vstd::prelude::*;
use crate::entry::{AppModel, StartupApp};
use crate::text::{
    after_first, after_first_chars, chars_of, copy_range, extend_chars, join_line_chars, join_lines, lines_of, opt_view,
    split_lines, strip_prefix_chars, without_prefix, starts_with, starts_with_at, string_of, trim,
    trim_chars, views,
};

verus! {

/// `key` followed by `=`.
pub open spec fn key_eq(key: Seq<char>) -> Seq<char> {
    key.push('=')
}

/// The value of the first line of `lines` that starts with `key=`: what
/// follows that line's first `=`, without white space at either end.
pub open spec fn find_value(lines: Seq<Seq<char>>, key: Seq<char>) -> Option<Seq<char>>
    decreases lines.len(),
{
    if lines.len() == 0 {
        None
    } else if starts_with(lines[0], key_eq(key)) {
        Some(trim(after_first(lines[0], '=')))
    } else {
        find_value(lines.subrange(1, lines.len() as int), key)
    }
}

/// The value that `content` gives to `key`.
pub open spec fn lookup(content: Seq<char>, key: Seq<char>) -> Option<Seq<char>> {
    find_value(lines_of(content), key)
}

fn find_value_in(lines: &Vec<Vec<char>>, key: &[char]) -> (r: Option<Vec<char>>)
    ensures
        match r {
            Some(v) => find_value(views(lines@), key@) == Some(v@),
            None => find_value(views(lines@), key@) is None,
        },
{
    let mut prefix = copy_range(key, 0, key.len());
    assert(key@.subrange(0, key@.len() as int) =~= key@);
    prefix.push('=');
    let mut i: usize = 0;
    assert(views(lines@).subrange(0, lines@.len() as int) =~= views(lines@));
    while i < lines.len()
        invariant
            i <= lines@.len(),
            prefix@ == key_eq(key@),
            find_value(views(lines@).subrange(i as int, lines@.len() as int), key@) == find_value(
                views(lines@),
                key@,
            ),
        decreases lines@.len() - i,
    {
        let ghost rest = views(lines@).subrange(i as int, lines@.len() as int);
        assert(rest[0] == lines@[i as int]@);
        assert(lines@[i as int]@.subrange(0, lines@[i as int]@.len() as int)
            =~= lines@[i as int]@);
        if starts_with_at(lines[i].as_slice(), 0, prefix.as_slice()) {
            let after = after_first_chars(lines[i].as_slice(), '=');
            return Some(trim_chars(after.as_slice()));
        }
        assert(rest.subrange(1, rest.len() as int) =~= views(lines@).subrange(
            i + 1,
            lines@.len() as int,
        ));
        i = i + 1;
    }
    None
}

/// The value that `content` gives to `key`: the first line that starts with
/// `key=` holds it after its first `=`, trimmed of white space.
pub fn extract_value(content: &str, key: &str) -> (r: Option<String>)
    ensures
        opt_view(r) == lookup(content@, key@),
{
    let cs = chars_of(content);
    let lines = split_lines(cs.as_slice());
    let k = chars_of(key);
    match find_value_in(&lines, k.as_slice()) {
        Some(v) => Some(string_of(v.as_slice())),
        None => None,
    }
}

/// The value reads `true` in any mix of upper and lower case.
pub open spec fn is_true_flag(v: Seq<char>) -> bool {
    &&& v.len() == 4
    &&& (v[0] == 't' || v[0] == 'T')
    &&& (v[1] == 'r' || v[1] == 'R')
    &&& (v[2] == 'u' || v[2] == 'U')
    &&& (v[3] == 'e' || v[3] == 'E')
}

fn is_true_value(v: &[char]) -> (r: bool)
    ensures
        r == is_true_flag(v@),
{
    v.len() == 4 && (v[0] == 't' || v[0] == 'T') && (v[1] == 'r' || v[1] == 'R') && (v[2] == 'u'
        || v[2] == 'U') && (v[3] == 'e' || v[3] == 'E')
}

/// An entry runs unless `Hidden` is true, and only if
/// `X-GNOME-Autostart-enabled` is true or absent.
pub open spec fn flags_enabled(hidden: Option<Seq<char>>, autostart: Option<Seq<char>>) -> bool {
    let hidden_set = match hidden {
        Some(v) => is_true_flag(v),
        None => false,
    };
    let autostart_set = match autostart {
        Some(v) => is_true_flag(v),
        None => true,
    };
    !hidden_set && autostart_set
}

/// The command without the leading `env` prefixes that only set up the
/// environment: first `env GDK_BACKEND=x11 `, then `env ` at the start of
/// what is left.
pub open spec fn strip_env(command: Seq<char>) -> Seq<char> {
    without_prefix(without_prefix(command, "env GDK_BACKEND=x11 "@), "env "@)
}

/// The entry that a `.desktop` file named `file_name`, at `path`, with
/// `content`, stands for.
pub open spec fn desktop_entry(file_name: Seq<char>, path: Seq<char>, content: Seq<char>) -> AppModel {
    AppModel {
        id: file_name,
        name: match lookup(content, "Name"@) {
            Some(v) => v,
            None => file_name,
        },
        command: match lookup(content, "Exec"@) {
            Some(v) => strip_env(v),
            None => Seq::empty(),
        },
        enabled: flags_enabled(
            lookup(content, "Hidden"@),
            lookup(content, "X-GNOME-Autostart-enabled"@),
        ),
        path,
    }
}

fn value_is_true(v: &Option<Vec<char>>, absent: bool) -> (r: bool)
    ensures
        r == match v {
            Some(x) => is_true_flag(x@),
            None => absent,
        },
{
    match v {
        Some(x) => is_true_value(x.as_slice()),
        None => absent,
    }
}

/// Removes the leading `env` prefixes from a command.
pub fn strip_env_prefixes(command: &[char]) -> (r: Vec<char>)
    ensures
        r@ == strip_env(command@),
{
    let gdk = chars_of("env GDK_BACKEND=x11 ");
    let env = chars_of("env ");
    let once = strip_prefix_chars(command, gdk.as_slice());
    strip_prefix_chars(once.as_slice(), env.as_slice())
}

/// Decodes the `.desktop` file named `file_name`, at `path`, with `content`.
pub fn parse_desktop_entry(file_name: &str, path: &str, content: &str) -> (r: StartupApp)
    ensures
        r@ == desktop_entry(file_name@, path@, content@),
{
    let cs = chars_of(content);
    let lines = split_lines(cs.as_slice());
    let name = find_value_in(&lines, chars_of("Name").as_slice());
    let exec = find_value_in(&lines, chars_of("Exec").as_slice());
    let hidden = find_value_in(&lines, chars_of("Hidden").as_slice());
    let autostart = find_value_in(&lines, chars_of("X-GNOME-Autostart-enabled").as_slice());
    let name = match name {
        Some(v) => string_of(v.as_slice()),
        None => string_of(chars_of(file_name).as_slice()),
    };
    let command = match exec {
        Some(v) => string_of(strip_env_prefixes(v.as_slice()).as_slice()),
        None => String::new(),
    };
    let enabled = !value_is_true(&hidden, false) && value_is_true(&autostart, true);
    StartupApp {
        id: string_of(chars_of(file_name).as_slice()),
        name,
        command,
        enabled,
        path: string_of(chars_of(path).as_slice()),
    }
}

/// `true` or `false`, as `bool` prints.
pub open spec fn bool_text(b: bool) -> Seq<char> {
    if b {
        "true"@
    } else {
        "false"@
    }
}

/// The `Hidden=` line that a toggle writes.
pub open spec fn hidden_line(enable: bool) -> Seq<char> {
    "Hidden="@ + bool_text(!enable)
}

/// One line after a toggle: the two flag lines take the new state, any other
/// line stays as it was.
pub open spec fn toggled_line(line: Seq<char>, enable: bool) -> Seq<char> {
    if starts_with(line, "Hidden="@) {
        hidden_line(enable)
    } else if starts_with(line, "X-GNOME-Autostart-enabled="@) {
        "X-GNOME-Autostart-enabled="@ + bool_text(enable)
    } else {
        line
    }
}

/// Some line of `lines` starts with `Hidden=`.
pub open spec fn has_hidden_line(lines: Seq<Seq<char>>) -> bool {
    exists|i: int| 0 <= i < lines.len() && starts_with(#[trigger] lines[i], "Hidden="@)
}

/// The lines after a toggle, with a `Hidden=` line added at the end where
/// there was none.
pub open spec fn toggled_lines(lines: Seq<Seq<char>>, enable: bool) -> Seq<Seq<char>> {
    let mapped = lines.map_values(|l: Seq<char>| toggled_line(l, enable));
    if has_hidden_line(lines) {
        mapped
    } else {
        mapped.push(hidden_line(enable))
    }
}

/// The file content after a toggle to `enable`.
pub open spec fn toggled(content: Seq<char>, enable: bool) -> Seq<char> {
    join_lines(toggled_lines(lines_of(content), enable))
}

fn bool_chars(b: bool) -> (r: Vec<char>)
    ensures
        r@ == bool_text(b),
{
    if b {
        chars_of("true")
    } else {
        chars_of("false")
    }
}

/// Rewrites a `.desktop` file so that the entry is enabled or disabled:
/// every `Hidden=` line becomes `Hidden=<!enable>`, every
/// `X-GNOME-Autostart-enabled=` line takes `enable`, the other lines stay
/// as they are and where they are, and a `Hidden=` line is added at the end
/// where the file had none. The lines are joined with `\n`.
pub fn toggle_content(content: &str, enable: bool) -> (r: String)
    ensures
        r@ == toggled(content@, enable),
{
    let cs = chars_of(content);
    let lines = split_lines(cs.as_slice());
    let hidden_key = chars_of("Hidden=");
    let autostart_key = chars_of("X-GNOME-Autostart-enabled=");
    let mut hidden = chars_of("Hidden=");
    extend_chars(&mut hidden, bool_chars(!enable).as_slice());
    let mut autostart = chars_of("X-GNOME-Autostart-enabled=");
    extend_chars(&mut autostart, bool_chars(enable).as_slice());
    let ghost ls = views(lines@);
    let mut out: Vec<Vec<char>> = Vec::new();
    let mut hidden_found = false;
    let mut i: usize = 0;
    while i < lines.len()
        invariant
            ls == views(lines@),
            i <= lines@.len(),
            hidden_key@ == "Hidden="@,
            autostart_key@ == "X-GNOME-Autostart-enabled="@,
            hidden@ == hidden_line(enable),
            autostart@ == "X-GNOME-Autostart-enabled="@ + bool_text(enable),
            views(out@) == ls.subrange(0, i as int).map_values(
                |l: Seq<char>| toggled_line(l, enable),
            ),
            hidden_found == has_hidden_line(ls.subrange(0, i as int)),
        decreases lines@.len() - i,
    {
        let ghost before = views(out@);
        let line = &lines[i];
        assert(line@.subrange(0, line@.len() as int) =~= line@);
        assert(ls[i as int] == line@);
        let new_line = if starts_with_at(line.as_slice(), 0, hidden_key.as_slice()) {
            hidden_found = true;
            copy_range(hidden.as_slice(), 0, hidden.len())
        } else if starts_with_at(line.as_slice(), 0, autostart_key.as_slice()) {
            copy_range(autostart.as_slice(), 0, autostart.len())
        } else {
            copy_range(line.as_slice(), 0, line.len())
        };
        assert(hidden@.subrange(0, hidden@.len() as int) =~= hidden@);
        assert(autostart@.subrange(0, autostart@.len() as int) =~= autostart@);
        assert(new_line@ == toggled_line(line@, enable));
        out.push(new_line);
        i = i + 1;
        let ghost pre = ls.subrange(0, i - 1);
        let ghost cur = ls.subrange(0, i as int);
        assert(cur =~= pre.push(line@));
        assert(views(out@) =~= before.push(toggled_line(line@, enable)));
        assert(cur.map_values(|l: Seq<char>| toggled_line(l, enable)) =~= pre.map_values(
            |l: Seq<char>| toggled_line(l, enable),
        ).push(toggled_line(line@, enable)));
        proof {
            if has_hidden_line(cur) && !has_hidden_line(pre) {
                let k = choose|k: int|
                    0 <= k < cur.len() && starts_with(#[trigger] cur[k], "Hidden="@);
                if k < pre.len() {
                    assert(pre[k] == cur[k]);
                }
            }
            if starts_with(line@, "Hidden="@) {
                assert(starts_with(cur[i - 1], "Hidden="@));
            }
            if has_hidden_line(pre) {
                let k = choose|k: int|
                    0 <= k < pre.len() && starts_with(#[trigger] pre[k], "Hidden="@);
                assert(cur[k] == pre[k]);
            }
        }
    }
    assert(ls.subrange(0, lines@.len() as int) =~= ls);
    if !hidden_found {
        out.push(hidden);
    }
    assert(views(out@) =~= toggled_lines(ls, enable));
    string_of(join_line_chars(&out).as_slice())
}

/// The lines of a new `.desktop` file.
pub open spec fn desktop_file_lines(
    name: Seq<char>,
    command: Seq<char>,
    description: Seq<char>,
) -> Seq<Seq<char>> {
    seq![
        "[Desktop Entry]"@,
        "Type=Application"@,
        "Name="@ + name,
        "Exec="@ + command,
        "Comment="@ + description,
        "Hidden=false"@,
        "X-GNOME-Autostart-enabled=true"@,
    ]
}

/// A new `.desktop` file: its lines, each ended by `\n`.
pub open spec fn desktop_file(name: Seq<char>, command: Seq<char>, description: Seq<char>) -> Seq<
    char,
> {
    join_lines(desktop_file_lines(name, command, description)).push('\n')
}

fn keyed_line(key: &str, value: &str) -> (r: Vec<char>)
    ensures
        r@ == key@ + value@,
{
    let mut line = chars_of(key);
    extend_chars(&mut line, chars_of(value).as_slice());
    line
}

/// The content of a new, enabled `.desktop` file for the given fields.
pub fn desktop_file_content(name: &str, command: &str, description: &str) -> (r: String)
    ensures
        r@ == desktop_file(name@, command@, description@),
{
    let mut lines: Vec<Vec<char>> = Vec::new();
    lines.push(chars_of("[Desktop Entry]"));
    lines.push(chars_of("Type=Application"));
    lines.push(keyed_line("Name=", name));
    lines.push(keyed_line("Exec=", command));
    lines.push(keyed_line("Comment=", description));
    lines.push(chars_of("Hidden=false"));
    lines.push(chars_of("X-GNOME-Autostart-enabled=true"));
    assert(views(lines@) =~= desktop_file_lines(name@, command@, description@));
    let mut out = join_line_chars(&lines);
    out.push('\n');
    string_of(out.as_slice())
}

} // verus!
