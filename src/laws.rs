use vstd::prelude::*;
use crate::desktop::{
    bool_text, desktop_entry, find_value, hidden_line, is_true_flag, key_eq, lookup,
    toggled, toggled_line, toggled_lines, has_hidden_line, desktop_file, desktop_file_lines,
    strip_env,
};
use crate::folder::{disabled_suffix, is_disabled_path, toggled_path};
use crate::entry::AppModel;
use crate::startup::{decode, discovered, file_stem, hyphenated, is_name_separator, FileModel, Platform};
use crate::text::{
    after_first, is_space, join_lines, lines_from, lines_of, starts_with, strip_cr, trim, trim_end,
    trim_start,
};

verus! {

/// A toggle keeps every line that is not one of the two flag lines: it is
/// left as it was, at the same position.
pub proof fn lemma_toggle_keeps_other_lines(lines: Seq<Seq<char>>, enable: bool, i: int)
    requires
        0 <= i < lines.len(),
        !starts_with(lines[i], "Hidden="@),
        !starts_with(lines[i], "X-GNOME-Autostart-enabled="@),
    ensures
        toggled_lines(lines, enable).len() >= lines.len(),
        toggled_lines(lines, enable)[i] == lines[i],
{
}

/// Every entry that discovery reports has the name of one of the files as
/// its `id`; so once a file is gone, no entry with its name is reported.
pub proof fn lemma_discovered_ids(platform: Platform, files: Seq<FileModel>, k: int)
    requires
        0 <= k < discovered(platform, files).len(),
    ensures
        exists|j: int|
            0 <= j < files.len() && (#[trigger] files[j]).file_name == discovered(
                platform,
                files,
            )[k].id,
    decreases files.len(),
{
    let init = files.subrange(0, files.len() - 1);
    let rest = discovered(platform, init);
    if k < rest.len() {
        lemma_discovered_ids(platform, init, k);
        let j = choose|j: int| 0 <= j < init.len() && (#[trigger] init[j]).file_name == rest[k].id;
        assert(files[j] == init[j]);
    } else {
        assert(files[files.len() - 1].file_name == discovered(platform, files)[k].id);
    }
}

/// A file that was not read, as a `.desktop` file that could not be read,
/// adds nothing to discovery on Linux: the others are reported as without it.
pub proof fn lemma_unreadable_file_skipped(files: Seq<FileModel>, i: int)
    requires
        0 <= i < files.len(),
        files[i].content is None,
    ensures
        discovered(Platform::Linux, files) == discovered(Platform::Linux, files.remove(i)),
    decreases files.len(),
{
    let n = files.len();
    let init = files.subrange(0, n - 1);
    if i == n - 1 {
        assert(files.remove(i) =~= init);
    } else {
        lemma_unreadable_file_skipped(init, i);
        let without = files.remove(i);
        assert(without.subrange(0, without.len() - 1) =~= init.remove(i));
        assert(without[without.len() - 1] == files[n - 1]);
    }
}

/// The file name of a new entry is its name with no space, slash or
/// backslash left, then lower-cased.
pub proof fn lemma_sanitized_name(name: Seq<char>)
    ensures
        file_stem(name) == crate::startup::lower_of(hyphenated(name)),
        hyphenated(name).len() == name.len(),
        forall|k: int| 0 <= k < name.len() ==> !is_name_separator(#[trigger] hyphenated(name)[k]),
{
}

/// `s` holds no line break.
pub open spec fn no_newline(s: Seq<char>) -> bool {
    forall|k: int| 0 <= k < s.len() ==> s[k] != '\n'
}

proof fn lemma_line_then_newline(a: Seq<char>, cur: Seq<char>)
    requires
        no_newline(a),
    ensures
        lines_from(a.push('\n'), cur) == seq![strip_cr(cur + a)],
    decreases a.len(),
{
    let s = a.push('\n');
    if a.len() == 0 {
        assert(s.subrange(1, s.len() as int) =~= Seq::<char>::empty());
        assert(cur + a =~= cur);
        assert(s[0] == '\n');
        assert(lines_from(Seq::<char>::empty(), Seq::<char>::empty()) =~= Seq::<Seq<char>>::empty());
        assert(seq![strip_cr(cur)] + Seq::<Seq<char>>::empty() =~= seq![strip_cr(cur)]);
    } else {
        let tail = a.subrange(1, a.len() as int);
        assert(s[0] == a[0]);
        assert(s.subrange(1, s.len() as int) =~= tail.push('\n'));
        lemma_line_then_newline(tail, cur.push(a[0]));
        assert(cur.push(a[0]) + tail =~= cur + a);
    }
}

proof fn lemma_line_at_end(a: Seq<char>, cur: Seq<char>)
    requires
        no_newline(a),
    ensures
        lines_from(a, cur) == if (cur + a).len() == 0 {
            Seq::<Seq<char>>::empty()
        } else {
            seq![cur + a]
        },
    decreases a.len(),
{
    if a.len() == 0 {
        assert(cur + a =~= cur);
    } else {
        let tail = a.subrange(1, a.len() as int);
        lemma_line_at_end(tail, cur.push(a[0]));
        assert(cur.push(a[0]) + tail =~= cur + a);
    }
}

proof fn lemma_lines_concat(x: Seq<char>, y: Seq<char>, cur: Seq<char>)
    requires
        x.len() > 0,
        x[x.len() - 1] == '\n',
    ensures
        lines_from(x + y, cur) == lines_from(x, cur) + lines_from(y, Seq::empty()),
    decreases x.len(),
{
    let s = x + y;
    let xt = x.subrange(1, x.len() as int);
    assert(s.subrange(1, s.len() as int) =~= xt + y);
    if x[0] == '\n' {
        if x.len() == 1 {
            assert(xt + y =~= y);
            assert(xt =~= Seq::<char>::empty());
        } else {
            lemma_lines_concat(xt, y, Seq::empty());
        }
    } else {
        lemma_lines_concat(xt, y, cur.push(x[0]));
    }
}

/// Every line of `ls` without a line break.
pub open spec fn lines_without_newline(ls: Seq<Seq<char>>) -> bool {
    forall|i: int| 0 <= i < ls.len() ==> no_newline(#[trigger] ls[i])
}

/// Lines joined and each ended by `\n` read back as the same lines, each
/// without a trailing carriage return.
pub proof fn lemma_lines_of_terminated(ls: Seq<Seq<char>>)
    requires
        ls.len() > 0,
        lines_without_newline(ls),
    ensures
        lines_of(join_lines(ls).push('\n')) == ls.map_values(|l: Seq<char>| strip_cr(l)),
    decreases ls.len(),
{
    if ls.len() == 1 {
        lemma_line_then_newline(ls[0], Seq::empty());
        assert(Seq::<char>::empty() + ls[0] =~= ls[0]);
        assert(ls.map_values(|l: Seq<char>| strip_cr(l)) =~= seq![strip_cr(ls[0])]);
    } else {
        let init = ls.subrange(0, ls.len() - 1);
        let last = ls[ls.len() - 1];
        assert(lines_without_newline(init)) by {
            assert forall|i: int| 0 <= i < init.len() implies no_newline(#[trigger] init[i]) by {
                assert(init[i] == ls[i]);
            }
        }
        lemma_lines_of_terminated(init);
        let x = join_lines(init).push('\n');
        assert(join_lines(ls).push('\n') =~= x + last.push('\n'));
        lemma_lines_concat(x, last.push('\n'), Seq::empty());
        lemma_line_then_newline(last, Seq::empty());
        assert(Seq::<char>::empty() + last =~= last);
        assert(ls.map_values(|l: Seq<char>| strip_cr(l)) =~= init.map_values(
            |l: Seq<char>| strip_cr(l),
        ).push(strip_cr(last)));
    }
}

/// What lines read back as after they were joined with `\n`: each but the
/// last without a trailing carriage return, and the last left out when
/// empty.
pub open spec fn relined(ls: Seq<Seq<char>>) -> Seq<Seq<char>> {
    let init = ls.subrange(0, ls.len() - 1).map_values(|l: Seq<char>| strip_cr(l));
    if ls[ls.len() - 1].len() == 0 {
        init
    } else {
        init.push(ls[ls.len() - 1])
    }
}

/// How lines joined with `\n` read back.
pub proof fn lemma_lines_of_joined(ls: Seq<Seq<char>>)
    requires
        ls.len() > 0,
        lines_without_newline(ls),
    ensures
        lines_of(join_lines(ls)) == relined(ls),
{
    let init = ls.subrange(0, ls.len() - 1);
    let last = ls[ls.len() - 1];
    lemma_line_at_end(last, Seq::empty());
    assert(Seq::<char>::empty() + last =~= last);
    if ls.len() == 1 {
        assert(init.map_values(|l: Seq<char>| strip_cr(l)) =~= Seq::<Seq<char>>::empty());
        assert(Seq::<Seq<char>>::empty().push(last) =~= seq![last]);
    } else {
        assert(lines_without_newline(init)) by {
            assert forall|i: int| 0 <= i < init.len() implies no_newline(#[trigger] init[i]) by {
                assert(init[i] == ls[i]);
            }
        }
        lemma_lines_of_terminated(init);
        let x = join_lines(init).push('\n');
        assert(join_lines(ls) =~= x + last);
        lemma_lines_concat(x, last, Seq::empty());
        if last.len() == 0 {
            assert(lines_of(join_lines(ls)) =~= relined(ls));
        } else {
            assert(lines_of(join_lines(ls)) =~= relined(ls));
        }
    }
}

proof fn lemma_lines_from_no_newline(s: Seq<char>, cur: Seq<char>)
    requires
        no_newline(cur),
    ensures
        lines_without_newline(lines_from(s, cur)),
    decreases s.len(),
{
    let rest = s.subrange(1, s.len() as int);
    if s.len() == 0 {
    } else if s[0] == '\n' {
        lemma_lines_from_no_newline(rest, Seq::empty());
        let ls = lines_from(s, cur);
        let tail = lines_from(rest, Seq::empty());
        assert forall|i: int| 0 <= i < ls.len() implies no_newline(#[trigger] ls[i]) by {
            if i > 0 {
                assert(ls[i] == tail[i - 1]);
            } else {
                assert(no_newline(strip_cr(cur)));
            }
        }
    } else {
        lemma_lines_from_no_newline(rest, cur.push(s[0]));
    }
}

/// No line of a text holds a line break.
pub proof fn lemma_lines_of_no_newline(s: Seq<char>)
    ensures
        lines_without_newline(lines_of(s)),
{
    lemma_lines_from_no_newline(s, Seq::empty());
}

proof fn lemma_after_first_prefix(p: Seq<char>, q: Seq<char>, c: char)
    requires
        p.len() > 0,
        p[p.len() - 1] == c,
        forall|k: int| 0 <= k < p.len() - 1 ==> p[k] != c,
    ensures
        after_first(p + q, c) == q,
    decreases p.len(),
{
    let s = p + q;
    assert(s[0] == p[0]);
    if p.len() == 1 {
        assert(s.subrange(1, s.len() as int) =~= q);
    } else {
        let pt = p.subrange(1, p.len() as int);
        assert(s.subrange(1, s.len() as int) =~= pt + q);
        lemma_after_first_prefix(pt, q, c);
    }
}

/// The first line that starts with `key=` is `line` whenever one does.
proof fn lemma_find_value_of(lines: Seq<Seq<char>>, key: Seq<char>, line: Seq<char>)
    requires
        forall|i: int|
            0 <= i < lines.len() && starts_with(#[trigger] lines[i], key_eq(key)) ==> lines[i]
                == line,
    ensures
        find_value(lines, key) is None || find_value(lines, key) == Some(
            trim(after_first(line, '=')),
        ),
        (exists|i: int| 0 <= i < lines.len() && starts_with(#[trigger] lines[i], key_eq(key)))
            ==> find_value(lines, key) == Some(trim(after_first(line, '='))),
    decreases lines.len(),
{
    if lines.len() > 0 {
        let rest = lines.subrange(1, lines.len() as int);
        assert forall|i: int|
            0 <= i < rest.len() && starts_with(#[trigger] rest[i], key_eq(key)) implies rest[i]
            == line by {
            assert(rest[i] == lines[i + 1]);
        }
        lemma_find_value_of(rest, key, line);
        if !starts_with(lines[0], key_eq(key)) {
            if exists|i: int| 0 <= i < lines.len() && starts_with(#[trigger] lines[i], key_eq(key)) {
                let i = choose|i: int|
                    0 <= i < lines.len() && starts_with(#[trigger] lines[i], key_eq(key));
                assert(rest[i - 1] == lines[i]);
            }
        }
    }
}

proof fn lemma_bool_text(b: bool)
    ensures
        trim(bool_text(b)) == bool_text(b),
        is_true_flag(bool_text(b)) == b,
        no_newline(bool_text(b)),
        bool_text(b).len() > 0,
        bool_text(b)[bool_text(b).len() - 1] == 'e',
{
    reveal_strlit("true");
    reveal_strlit("false");
    let t = bool_text(b);
    assert(!is_space(t[0]));
    assert(trim_start(t) == t);
    assert(!is_space(t[t.len() - 1]));
    assert(trim_end(t) == t);
}

/// The line `key=` and then `b` as text.
pub open spec fn flag_line(key: Seq<char>, b: bool) -> Seq<char> {
    key_eq(key) + bool_text(b)
}

proof fn lemma_flag_line(key: Seq<char>, b: bool)
    requires
        key.len() > 0,
        forall|k: int| 0 <= k < key.len() ==> key[k] != '=',
        no_newline(key),
    ensures
        trim(after_first(flag_line(key, b), '=')) == bool_text(b),
        strip_cr(flag_line(key, b)) == flag_line(key, b),
        no_newline(flag_line(key, b)),
        starts_with(flag_line(key, b), key_eq(key)),
{
    lemma_bool_text(b);
    let l = flag_line(key, b);
    lemma_after_first_prefix(key_eq(key), bool_text(b), '=');
    assert(l[l.len() - 1] == 'e');
    assert(l.subrange(0, key_eq(key).len() as int) =~= key_eq(key));
    assert forall|k: int| 0 <= k < l.len() implies l[k] != '\n' by {
        if k >= key.len() + 1 {
            assert(l[k] == bool_text(b)[k - key.len() - 1]);
        } else if k < key.len() {
            assert(l[k] == key[k]);
        }
    }
}

proof fn lemma_strip_cr_prefix(t: Seq<char>, p: Seq<char>)
    requires
        starts_with(strip_cr(t), p),
    ensures
        starts_with(t, p),
{
    assert(strip_cr(t).subrange(0, p.len() as int) =~= t.subrange(0, p.len() as int));
}

proof fn lemma_keys()
    ensures
        key_eq("Hidden"@) == "Hidden="@,
        key_eq("X-GNOME-Autostart-enabled"@) == "X-GNOME-Autostart-enabled="@,
        forall|k: int| 0 <= k < "Hidden"@.len() ==> "Hidden"@[k] != '=',
        forall|k: int|
            0 <= k < "X-GNOME-Autostart-enabled"@.len() ==> "X-GNOME-Autostart-enabled"@[k]
                != '=',
        "Hidden"@.len() > 0,
        "X-GNOME-Autostart-enabled"@.len() > 0,
        no_newline("Hidden"@),
        no_newline("X-GNOME-Autostart-enabled"@),
        "Hidden="@[0] == 'H',
        "X-GNOME-Autostart-enabled="@[0] == 'X',
        "Hidden="@.len() > 0,
        "X-GNOME-Autostart-enabled="@.len() > 0,
{
    reveal_strlit("Hidden");
    reveal_strlit("Hidden=");
    reveal_strlit("X-GNOME-Autostart-enabled");
    reveal_strlit("X-GNOME-Autostart-enabled=");
    assert(key_eq("Hidden"@) =~= "Hidden="@);
    assert(key_eq("X-GNOME-Autostart-enabled"@) =~= "X-GNOME-Autostart-enabled="@);
}

proof fn lemma_first_char_differs(s: Seq<char>, p: Seq<char>, q: Seq<char>)
    requires
        starts_with(s, p),
        p.len() > 0,
        q.len() > 0,
        p[0] != q[0],
    ensures
        !starts_with(s, q),
{
    assert(s.subrange(0, p.len() as int)[0] == s[0]);
    if starts_with(s, q) {
        assert(s.subrange(0, q.len() as int)[0] == s[0]);
    }
}

/// After a toggle to `enable`, every line of the file that sets one of the
/// two flags sets it to the new state, and a `Hidden=` line is there.
proof fn lemma_toggled_flags(content: Seq<char>, enable: bool)
    ensures
        lookup(toggled(content, enable), "Hidden"@) == Some(bool_text(!enable)),
        lookup(toggled(content, enable), "X-GNOME-Autostart-enabled"@) is None || lookup(
            toggled(content, enable),
            "X-GNOME-Autostart-enabled"@,
        ) == Some(bool_text(enable)),
{
    let hk = "Hidden"@;
    let xk = "X-GNOME-Autostart-enabled"@;
    lemma_keys();
    lemma_flag_line(hk, !enable);
    lemma_flag_line(xk, enable);
    assert(hidden_line(enable) == flag_line(hk, !enable));
    let xl = flag_line(xk, enable);
    assert(xl == "X-GNOME-Autostart-enabled="@ + bool_text(enable));
    lemma_first_char_differs(hidden_line(enable), "Hidden="@, "X-GNOME-Autostart-enabled="@);
    lemma_first_char_differs(xl, "X-GNOME-Autostart-enabled="@, "Hidden="@);
    let ls = lines_of(content);
    lemma_lines_of_no_newline(content);
    let t = toggled_lines(ls, enable);
    // Each line of the toggled file has no line break, and a flag line is
    // exactly the line that the toggle wrote.
    assert forall|i: int| 0 <= i < t.len() implies {
        &&& no_newline(#[trigger] t[i])
        &&& (starts_with(t[i], "Hidden="@) ==> t[i] == hidden_line(enable))
        &&& (starts_with(t[i], "X-GNOME-Autostart-enabled="@) ==> t[i] == xl)
    } by {
        if i < ls.len() {
            assert(t[i] == toggled_line(ls[i], enable));
            assert(no_newline(ls[i]));
        }
    }
    assert(t.len() > 0);
    lemma_lines_of_joined(t);
    let m = relined(t);
    let n = t.len();
    assert forall|i: int| 0 <= i < m.len() implies (i < n - 1 ==> m[i] == strip_cr(t[i])) && (
    i == n - 1 ==> m[i] == t[i]) by {}
    assert forall|i: int|
        0 <= i < m.len() && starts_with(#[trigger] m[i], key_eq(hk)) implies m[i]
        == flag_line(hk, !enable) by {
        if i < n - 1 {
            lemma_strip_cr_prefix(t[i], "Hidden="@);
        }
    }
    assert forall|i: int|
        0 <= i < m.len() && starts_with(#[trigger] m[i], key_eq(xk)) implies m[i] == xl by {
        if i < n - 1 {
            lemma_strip_cr_prefix(t[i], "X-GNOME-Autostart-enabled="@);
        }
    }
    lemma_find_value_of(m, hk, flag_line(hk, !enable));
    lemma_find_value_of(m, xk, xl);
    // Some line sets `Hidden`.
    let j: int = if has_hidden_line(ls) {
        choose|k: int| 0 <= k < ls.len() && starts_with(#[trigger] ls[k], "Hidden="@)
    } else {
        n - 1
    };
    assert(t[j] == hidden_line(enable));
    assert(starts_with(m[j], key_eq(hk)));
}

/// After a toggle to `enable`, the entry that the file stands for is enabled
/// exactly when `enable` is true.
pub proof fn lemma_toggle_sets_state(
    file_name: Seq<char>,
    path: Seq<char>,
    content: Seq<char>,
    enable: bool,
)
    ensures
        desktop_entry(file_name, path, toggled(content, enable)).enabled == enable,
{
    lemma_toggled_flags(content, enable);
    lemma_bool_text(enable);
    lemma_bool_text(!enable);
}

/// Enabling twice in a row leaves the entry enabled after each toggle.
pub proof fn lemma_enable_twice(file_name: Seq<char>, path: Seq<char>, content: Seq<char>)
    ensures
        desktop_entry(file_name, path, toggled(content, true)).enabled,
        desktop_entry(file_name, path, toggled(toggled(content, true), true)).enabled,
{
    lemma_toggle_sets_state(file_name, path, content, true);
    lemma_toggle_sets_state(file_name, path, toggled(content, true), true);
}

/// Disabling a Startup-folder file appends the `.disabled` suffix, and
/// enabling it again brings it back to where it was.
pub proof fn lemma_folder_toggle_round_trip(path: Seq<char>)
    requires
        path.len() > 0,
        path[path.len() - 1] != '/',
        path[path.len() - 1] != '\\',
    ensures
        toggled_path(path, false) == Some(path + disabled_suffix()),
        toggled_path(path + disabled_suffix(), true) == Some(path),
{
    reveal_strlit(".disabled");
    let q = path + disabled_suffix();
    assert(q.subrange(q.len() - disabled_suffix().len(), q.len() as int) =~= disabled_suffix());
    assert(q[q.len() - disabled_suffix().len() - 1] == path[path.len() - 1]);
    assert(is_disabled_path(q));
    assert(q.subrange(0, q.len() - disabled_suffix().len()) =~= path);
}

/// Enabling a Startup-folder file that is not disabled leaves it where it
/// is, so enabling twice in a row is no error and changes nothing the second
/// time.
pub proof fn lemma_folder_enable_enabled(path: Seq<char>)
    requires
        !is_disabled_path(path),
    ensures
        toggled_path(path, true) is None,
{
}

proof fn lemma_trimmed_ends(s: Seq<char>)
    requires
        trim(s) == s,
        s.len() > 0,
    ensures
        !is_space(s[s.len() - 1]),
{
    lemma_trim_start_shorter(s);
    if is_space(s[0]) {
        lemma_trim_start_shorter(s.subrange(1, s.len() as int));
        lemma_trim_end_shorter(trim_start(s));
    } else {
        assert(trim_start(s) == s);
        if is_space(s[s.len() - 1]) {
            lemma_trim_end_shorter(s.subrange(0, s.len() - 1));
        }
    }
}

proof fn lemma_trim_start_shorter(s: Seq<char>)
    ensures
        trim_start(s).len() <= s.len(),
    decreases s.len(),
{
    if s.len() > 0 && is_space(s[0]) {
        lemma_trim_start_shorter(s.subrange(1, s.len() as int));
    }
}

proof fn lemma_trim_end_shorter(s: Seq<char>)
    ensures
        trim_end(s).len() <= s.len(),
    decreases s.len(),
{
    if s.len() > 0 && is_space(s[s.len() - 1]) {
        lemma_trim_end_shorter(s.subrange(0, s.len() - 1));
    }
}

proof fn lemma_find_value_at(lines: Seq<Seq<char>>, key: Seq<char>, j: int)
    requires
        0 <= j < lines.len(),
        starts_with(lines[j], key_eq(key)),
        forall|i: int| 0 <= i < j ==> !starts_with(#[trigger] lines[i], key_eq(key)),
    ensures
        find_value(lines, key) == Some(trim(after_first(lines[j], '='))),
    decreases j,
{
    if j > 0 {
        let rest = lines.subrange(1, lines.len() as int);
        assert forall|i: int| 0 <= i < j - 1 implies !starts_with(#[trigger] rest[i], key_eq(key)) by {
            assert(rest[i] == lines[i + 1]);
        }
        assert(!starts_with(lines[0], key_eq(key)));
        lemma_find_value_at(rest, key, j - 1);
    }
}

proof fn lemma_keyed_line(key: Seq<char>, v: Seq<char>)
    requires
        key.len() > 0,
        forall|k: int| 0 <= k < key.len() ==> key[k] != '=',
        no_newline(key),
        no_newline(v),
        trim(v) == v,
    ensures
        trim(after_first(key_eq(key) + v, '=')) == v,
        strip_cr(key_eq(key) + v) == key_eq(key) + v,
        no_newline(key_eq(key) + v),
        starts_with(key_eq(key) + v, key_eq(key)),
{
    let l = key_eq(key) + v;
    lemma_after_first_prefix(key_eq(key), v, '=');
    if v.len() > 0 {
        lemma_trimmed_ends(v);
        assert(l[l.len() - 1] == v[v.len() - 1]);
    }
    assert(l.subrange(0, key_eq(key).len() as int) =~= key_eq(key));
    assert forall|k: int| 0 <= k < l.len() implies l[k] != '\n' by {
        if k >= key.len() + 1 {
            assert(l[k] == v[k - key.len() - 1]);
        } else if k < key.len() {
            assert(l[k] == key[k]);
        }
    }
}

/// A new `.desktop` file reads back as the entry that was asked for: its
/// name, its command as discovery shows commands, and enabled. Where the file
/// name keeps something before `.desktop`, discovery reports exactly that
/// entry. Names, commands and descriptions that hold a line break, and names
/// and commands with white space at either end, are left out: the file's
/// lines do not keep them.
pub proof fn lemma_created_entry_discovered(
    name: Seq<char>,
    command: Seq<char>,
    description: Seq<char>,
    path: Seq<char>,
)
    requires
        no_newline(name),
        no_newline(command),
        no_newline(description),
        trim(name) == name,
        trim(command) == command,
    ensures
        ({
            let file_name = crate::startup::file_stem(name) + ".desktop"@;
            let content = desktop_file(name, command, description);
            let entry = AppModel {
                id: file_name,
                name,
                command: strip_env(command),
                enabled: true,
                path,
            };
            &&& desktop_entry(file_name, path, content) == entry
            &&& crate::startup::file_stem(name).len() > 0 ==> decode(
                Platform::Linux,
                FileModel { file_name, path, content: Some(content) },
            ) == Some(entry)
            &&& crate::startup::file_stem(name).len() > 0 ==> discovered(
                Platform::Linux,
                seq![FileModel { file_name, path, content: Some(content) }],
            ) == seq![entry]
        }),
{
    reveal_strlit("[Desktop Entry]");
    reveal_strlit("Type=Application");
    reveal_strlit("Name=");
    reveal_strlit("Exec=");
    reveal_strlit("Comment=");
    reveal_strlit("Hidden=false");
    reveal_strlit("X-GNOME-Autostart-enabled=true");
    reveal_strlit("Name");
    reveal_strlit("Exec");
    reveal_strlit("Hidden");
    reveal_strlit("X-GNOME-Autostart-enabled");
    reveal_strlit("false");
    reveal_strlit("true");
    reveal_strlit(".desktop");
    reveal_strlit("desktop");
    let file_name = crate::startup::file_stem(name) + ".desktop"@;
    let content = desktop_file(name, command, description);
    let ls = desktop_file_lines(name, command, description);
    let nk = "Name"@;
    let ek = "Exec"@;
    let hk = "Hidden"@;
    let xk = "X-GNOME-Autostart-enabled"@;
    assert(key_eq(nk) =~= "Name="@);
    assert(key_eq(ek) =~= "Exec="@);
    lemma_keys();
    lemma_keyed_line(nk, name);
    lemma_keyed_line(ek, command);
    lemma_flag_line(hk, false);
    lemma_flag_line(xk, true);
    assert("Hidden=false"@ =~= flag_line(hk, false));
    assert("X-GNOME-Autostart-enabled=true"@ =~= flag_line(xk, true));
    let comment = "Comment="@ + description;
    assert(no_newline(comment)) by {
        assert forall|k: int| 0 <= k < comment.len() implies comment[k] != '\n' by {
            if k >= 8 {
                assert(comment[k] == description[k - 8]);
            }
        }
    }
    assert(lines_without_newline(ls)) by {
        assert forall|i: int| 0 <= i < ls.len() implies no_newline(#[trigger] ls[i]) by {
            if i == 0 {
                assert(no_newline("[Desktop Entry]"@));
            } else if i == 1 {
                assert(no_newline("Type=Application"@));
            }
        }
    }
    lemma_lines_of_terminated(ls);
    let m = ls.map_values(|l: Seq<char>| strip_cr(l));
    assert(lines_of(content) == m);
    let sc = strip_cr(comment);
    assert(sc.len() > 0 && sc[0] == 'C');
    let firsts = seq!['[', 'T', 'N', 'E', 'C', 'H', 'X'];
    assert forall|i: int| 0 <= i < 7 implies m[i].len() > 0 && (#[trigger] m[i])[0] == firsts[i] by {
        if i == 4 {
            assert(m[i] == sc);
        }
    }
    assert forall|i: int| 0 <= i < 2 implies !starts_with(#[trigger] m[i], key_eq(nk)) by {
        lemma_first_char_differs_at(m[i], key_eq(nk));
    }
    assert forall|i: int| 0 <= i < 3 implies !starts_with(#[trigger] m[i], key_eq(ek)) by {
        lemma_first_char_differs_at(m[i], key_eq(ek));
    }
    assert forall|i: int| 0 <= i < 5 implies !starts_with(#[trigger] m[i], key_eq(hk)) by {
        lemma_first_char_differs_at(m[i], key_eq(hk));
    }
    assert forall|i: int| 0 <= i < 6 implies !starts_with(#[trigger] m[i], key_eq(xk)) by {
        lemma_first_char_differs_at(m[i], key_eq(xk));
    }
    lemma_find_value_at(m, nk, 2);
    lemma_find_value_at(m, ek, 3);
    lemma_find_value_at(m, hk, 5);
    lemma_find_value_at(m, xk, 6);
    lemma_bool_text(false);
    lemma_bool_text(true);
    let entry = AppModel { id: file_name, name, command: strip_env(command), enabled: true, path };
    assert(desktop_entry(file_name, path, content) == entry);
    if crate::startup::file_stem(name).len() > 0 {
        let f = FileModel { file_name, path, content: Some(content) };
        let files = seq![f];
        assert(file_name.subrange(file_name.len() - 8, file_name.len() as int) =~= seq!['.']
            + "desktop"@);
        assert(crate::folder::has_extension(file_name, "desktop"@));
        assert(decode(Platform::Linux, f) == Some(entry));
        assert(files.subrange(0, 0) =~= Seq::<FileModel>::empty());
        assert(discovered(Platform::Linux, Seq::<FileModel>::empty()) =~= Seq::<AppModel>::empty());
        assert(files[files.len() - 1] == f);
        assert(discovered(Platform::Linux, files) =~= seq![entry]);
    }
}

proof fn lemma_first_char_differs_at(s: Seq<char>, p: Seq<char>)
    requires
        s.len() > 0,
        p.len() > 0,
        s[0] != p[0],
    ensures
        !starts_with(s, p),
{
    if starts_with(s, p) {
        assert(s.subrange(0, p.len() as int)[0] == s[0]);
    }
}

/// A file that stands for an entry has that entry listed by discovery.
pub proof fn lemma_decoded_file_listed(platform: Platform, files: Seq<FileModel>, i: int)
    requires
        0 <= i < files.len(),
        decode(platform, files[i]) is Some,
    ensures
        exists|k: int|
            0 <= k < discovered(platform, files).len() && #[trigger] discovered(platform, files)[k]
                == decode(platform, files[i])->0,
    decreases files.len(),
{
    let n = files.len();
    let init = files.subrange(0, n - 1);
    let all = discovered(platform, files);
    if i == n - 1 {
        assert(all[all.len() - 1] == decode(platform, files[i])->0);
    } else {
        assert(init[i] == files[i]);
        lemma_decoded_file_listed(platform, init, i);
        let rest = discovered(platform, init);
        let k = choose|k: int| 0 <= k < rest.len() && #[trigger] rest[k] == decode(platform, init[i])->0;
        assert(all[k] == rest[k]);
    }
}

/// Creating an entry adds exactly one entry to what discovery lists in a
/// directory: the entries found before stay, in their order, and the new one
/// follows them; where no file had the new file's name before, no other entry
/// has its `id`. Names, commands and descriptions with a line break, and
/// names and commands with white space at either end, are left out, as the
/// file's lines do not keep them.
pub proof fn lemma_create_adds_one_entry(
    files: Seq<FileModel>,
    name: Seq<char>,
    command: Seq<char>,
    description: Seq<char>,
    path: Seq<char>,
)
    requires
        no_newline(name),
        no_newline(command),
        no_newline(description),
        trim(name) == name,
        trim(command) == command,
    ensures
        ({
            let file_name = crate::startup::file_stem(name) + ".desktop"@;
            let content = desktop_file(name, command, description);
            let entry = AppModel {
                id: file_name,
                name,
                command: strip_env(command),
                enabled: true,
                path,
            };
            let after = files.push(FileModel { file_name, path, content: Some(content) });
            &&& crate::startup::file_stem(name).len() > 0 ==> discovered(Platform::Linux, after)
                == discovered(Platform::Linux, files).push(entry)
            &&& (forall|j: int| 0 <= j < files.len() ==> (#[trigger] files[j]).file_name != file_name)
                ==> forall|k: int|
                0 <= k < discovered(Platform::Linux, files).len() ==> (#[trigger] discovered(
                    Platform::Linux,
                    files,
                )[k]).id != file_name
        }),
{
    let file_name = crate::startup::file_stem(name) + ".desktop"@;
    let content = desktop_file(name, command, description);
    let f = FileModel { file_name, path, content: Some(content) };
    lemma_created_entry_discovered(name, command, description, path);
    let after = files.push(f);
    assert(after.subrange(0, after.len() - 1) =~= files);
    if crate::startup::file_stem(name).len() > 0 {
        assert(decode(Platform::Linux, f) is Some);
        assert(after[after.len() - 1] == f);
    }
    if forall|j: int| 0 <= j < files.len() ==> (#[trigger] files[j]).file_name != file_name {
        assert forall|k: int| 0 <= k < discovered(Platform::Linux, files).len() implies (
        #[trigger] discovered(Platform::Linux, files)[k]).id != file_name by {
            lemma_discovered_ids(Platform::Linux, files, k);
        }
    }
}

/// The listing after the `.desktop` file at position `i` was toggled to
/// `enable`.
pub open spec fn toggled_listing(files: Seq<FileModel>, i: int, enable: bool) -> Seq<FileModel> {
    files.update(
        i,
        FileModel {
            file_name: files[i].file_name,
            path: files[i].path,
            content: Some(toggled(files[i].content->0, enable)),
        },
    )
}

/// After the `.desktop` file of a listed entry is toggled to `enable`,
/// discovery lists an entry with the same `id` and path whose state is
/// `enable`.
pub proof fn lemma_toggle_in_listing(files: Seq<FileModel>, i: int, enable: bool)
    requires
        0 <= i < files.len(),
        decode(Platform::Linux, files[i]) is Some,
    ensures
        exists|k: int|
            0 <= k < discovered(Platform::Linux, toggled_listing(files, i, enable)).len() && {
                let e = #[trigger] discovered(Platform::Linux, toggled_listing(files, i, enable))[k];
                &&& e.id == files[i].file_name
                &&& e.path == files[i].path
                &&& e.enabled == enable
            },
{
    let after = toggled_listing(files, i, enable);
    let f = files[i];
    lemma_toggle_sets_state(f.file_name, f.path, f.content->0, enable);
    assert(after[i].file_name == f.file_name);
    assert(decode(Platform::Linux, after[i]) is Some);
    lemma_decoded_file_listed(Platform::Linux, after, i);
}

/// Disabling the `.desktop` file of a listed entry and enabling it again
/// lists it, with the same `id` and path, as enabled.
pub proof fn lemma_disable_then_enable_in_listing(files: Seq<FileModel>, i: int)
    requires
        0 <= i < files.len(),
        decode(Platform::Linux, files[i]) is Some,
    ensures
        exists|k: int|
            0 <= k < discovered(
                Platform::Linux,
                toggled_listing(toggled_listing(files, i, false), i, true),
            ).len() && {
                let e = #[trigger] discovered(
                    Platform::Linux,
                    toggled_listing(toggled_listing(files, i, false), i, true),
                )[k];
                &&& e.id == files[i].file_name
                &&& e.path == files[i].path
                &&& e.enabled
            },
{
    let once = toggled_listing(files, i, false);
    assert(once[i].file_name == files[i].file_name);
    assert(decode(Platform::Linux, once[i]) is Some);
    lemma_toggle_in_listing(once, i, true);
}

} // verus!
