use vstd::prelude::*;
use crate::entry::{AppModel, StartupApp};
use crate::text::{chars_of, copy_range, starts_with_at, string_of};

verus! {

/// `s` ends with `t`.
pub open spec fn ends_with(s: Seq<char>, t: Seq<char>) -> bool {
    t.len() <= s.len() && s.subrange(s.len() - t.len(), s.len() as int) == t
}

/// Tests whether `s` ends with `t`.
pub fn ends_with_chars(s: &[char], t: &[char]) -> (r: bool)
    ensures
        r == ends_with(s@, t@),
{
    if t.len() > s.len() {
        return false;
    }
    let at = s.len() - t.len();
    let r = starts_with_at(s, at, t);
    assert(s@.subrange(at as int, s@.len() as int).subrange(0, t@.len() as int) =~= s@.subrange(
        at as int,
        s@.len() as int,
    ));
    r
}

/// The file name `name` has the extension `ext` (which holds no dot): the
/// name ends with `.` and `ext`, and something comes before that dot.
pub open spec fn has_extension(name: Seq<char>, ext: Seq<char>) -> bool {
    name.len() > ext.len() + 1 && ends_with(name, seq!['.'] + ext)
}

/// Tests whether the file name `name` has the extension `ext`.
pub fn has_extension_chars(name: &[char], ext: &str) -> (r: bool)
    ensures
        r == has_extension(name@, ext@),
{
    let mut dotted: Vec<char> = Vec::new();
    dotted.push('.');
    let e = chars_of(ext);
    let mut k: usize = 0;
    while k < e.len()
        invariant
            k <= e@.len(),
            dotted@ == seq!['.'] + e@.subrange(0, k as int),
        decreases e@.len() - k,
    {
        dotted.push(e[k]);
        k = k + 1;
        assert(dotted@ =~= seq!['.'] + e@.subrange(0, k as int));
    }
    assert(e@.subrange(0, e@.len() as int) =~= e@);
    name.len() > e.len() && name.len() - e.len() > 1 && ends_with_chars(name, dotted.as_slice())
}

/// A file that the startup folder runs: a shortcut, a batch or command
/// script, or a program.
pub open spec fn is_folder_entry(name: Seq<char>) -> bool {
    has_extension(name, "lnk"@) || has_extension(name, "bat"@) || has_extension(name, "cmd"@)
        || has_extension(name, "exe"@)
}

/// Tests whether the startup folder runs the file named `name`.
pub fn is_folder_entry_name(name: &str) -> (r: bool)
    ensures
        r == is_folder_entry(name@),
{
    let n = chars_of(name);
    has_extension_chars(n.as_slice(), "lnk") || has_extension_chars(n.as_slice(), "bat")
        || has_extension_chars(n.as_slice(), "cmd") || has_extension_chars(n.as_slice(), "exe")
}

/// `s` without `t` where it ends with `t`; `s` as it is otherwise.
pub open spec fn without_suffix(s: Seq<char>, t: Seq<char>) -> Seq<char> {
    if ends_with(s, t) {
        s.subrange(0, s.len() - t.len())
    } else {
        s
    }
}

/// The entry that the startup-folder file `file_name` at `path` stands for:
/// named after the file without a final `.lnk`, run by its own path, and
/// enabled.
pub open spec fn folder_entry(file_name: Seq<char>, path: Seq<char>) -> AppModel {
    AppModel {
        id: file_name,
        name: without_suffix(file_name, ".lnk"@),
        command: path,
        enabled: true,
        path,
    }
}

/// Describes the startup-folder file `file_name` at `path`.
pub fn parse_folder_entry(file_name: &str, path: &str) -> (r: StartupApp)
    ensures
        r@ == folder_entry(file_name@, path@),
{
    let f = chars_of(file_name);
    let lnk = chars_of(".lnk");
    let name = if ends_with_chars(f.as_slice(), lnk.as_slice()) {
        copy_range(f.as_slice(), 0, f.len() - lnk.len())
    } else {
        copy_range(f.as_slice(), 0, f.len())
    };
    assert(f@.subrange(0, f@.len() as int) =~= f@);
    StartupApp {
        id: string_of(f.as_slice()),
        name: string_of(name.as_slice()),
        command: string_of(chars_of(path).as_slice()),
        enabled: true,
        path: string_of(chars_of(path).as_slice()),
    }
}

/// The suffix that marks a disabled startup-folder file.
pub open spec fn disabled_suffix() -> Seq<char> {
    ".disabled"@
}

/// The file at `path` is disabled: its name has the extension `disabled`.
/// The character before the suffix must belong to the file name, not be a
/// path separator.
pub open spec fn is_disabled_path(path: Seq<char>) -> bool {
    &&& path.len() > disabled_suffix().len()
    &&& ends_with(path, disabled_suffix())
    &&& path[path.len() - disabled_suffix().len() - 1] != '/'
    &&& path[path.len() - disabled_suffix().len() - 1] != '\\'
}

/// Where a toggle moves the startup-folder file at `path`: `None` where it
/// stays (enabling a file that is not disabled).
pub open spec fn toggled_path(path: Seq<char>, enable: bool) -> Option<Seq<char>> {
    if enable {
        if is_disabled_path(path) {
            Some(path.subrange(0, path.len() - disabled_suffix().len()))
        } else {
            None
        }
    } else {
        Some(path + disabled_suffix())
    }
}

/// The new path of a startup-folder file toggled to `enable`; `None` where
/// the file is already enabled and stays where it is.
pub fn toggle_path(path: &str, enable: bool) -> (r: Option<String>)
    ensures
        opt_view_ok(r, toggled_path(path@, enable)),
{
    let p = chars_of(path);
    let suffix = chars_of(".disabled");
    proof {
        reveal_strlit(".disabled");
    }
    if enable {
        if p.len() > suffix.len() && ends_with_chars(p.as_slice(), suffix.as_slice()) {
            let before = p[p.len() - suffix.len() - 1];
            if before != '/' && before != '\\' {
                let kept = copy_range(p.as_slice(), 0, p.len() - suffix.len());
                return Some(string_of(kept.as_slice()));
            }
        }
        None
    } else {
        let mut moved = copy_range(p.as_slice(), 0, p.len());
        let mut k: usize = 0;
        assert(p@.subrange(0, p@.len() as int) =~= p@);
        while k < suffix.len()
            invariant
                k <= suffix@.len(),
                moved@ == p@ + suffix@.subrange(0, k as int),
            decreases suffix@.len() - k,
        {
            moved.push(suffix[k]);
            k = k + 1;
            assert(moved@ =~= p@ + suffix@.subrange(0, k as int));
        }
        assert(suffix@.subrange(0, suffix@.len() as int) =~= suffix@);
        Some(string_of(moved.as_slice()))
    }
}

/// `r` holds what `m` describes.
pub open spec fn opt_view_ok(r: Option<String>, m: Option<Seq<char>>) -> bool {
    match r {
        Some(v) => m == Some(v@),
        None => m is None,
    }
}

/// A batch file that starts `command`.
pub open spec fn batch_file(command: Seq<char>) -> Seq<char> {
    "@echo off\nstart \"\" \""@ + command + "\""@
}

/// The content of a new batch file that starts `command`.
pub fn batch_file_content(command: &str) -> (r: String)
    ensures
        r@ == batch_file(command@),
{
    let mut out = chars_of("@echo off\nstart \"\" \"");
    let c = chars_of(command);
    crate::text::extend_chars(&mut out, c.as_slice());
    crate::text::extend_chars(&mut out, chars_of("\"").as_slice());
    string_of(out.as_slice())
}

} // verus!
