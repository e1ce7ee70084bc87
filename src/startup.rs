use vstd::prelude::*;
use crate::desktop::{desktop_entry, desktop_file, desktop_file_content, parse_desktop_entry};
use crate::entry::{AppModel, StartupApp};
use crate::folder::{
    batch_file, batch_file_content, folder_entry, has_extension, has_extension_chars,
    is_folder_entry, is_folder_entry_name, opt_view_ok, parse_folder_entry, toggle_path,
    toggled_path,
};
use crate::text::{chars_of, string_of};

verus! {

/// The operating system whose storage and format the operations follow.
#[derive(Clone, Copy, Debug, PartialEq, Eq, Structural)]
pub enum Platform {
    /// `.desktop` files in the `autostart` configuration directory.
    Linux,
    /// Shortcuts, scripts and programs in the Startup folder.
    Windows,
    /// A system without startup entries.
    Unsupported,
}

/// A file found in the storage directory: its name, its path, and its
/// content where it was read.
pub struct StorageFile {
    pub file_name: String,
    pub path: String,
    pub content: Option<String>,
}

/// What a `StorageFile` holds.
pub struct FileModel {
    pub file_name: Seq<char>,
    pub path: Seq<char>,
    pub content: Option<Seq<char>>,
}

impl View for StorageFile {
    type V = FileModel;

    open spec fn view(&self) -> FileModel {
        FileModel {
            file_name: self.file_name@,
            path: self.path@,
            content: match self.content {
                Some(c) => Some(c@),
                None => None,
            },
        }
    }
}

/// The message of the operations that a platform does not offer.
pub open spec fn unsupported_message() -> Seq<char> {
    "Not supported on this OS"@
}

/// The file named `file_name` is a startup entry on `platform`.
pub open spec fn is_storage_file(platform: Platform, file_name: Seq<char>) -> bool {
    match platform {
        Platform::Linux => has_extension(file_name, "desktop"@),
        Platform::Windows => is_folder_entry(file_name),
        Platform::Unsupported => false,
    }
}

/// Tests whether the file named `file_name` is a startup entry on `platform`,
/// so that its content is worth reading.
pub fn is_startup_file(platform: Platform, file_name: &str) -> (r: bool)
    ensures
        r == is_storage_file(platform, file_name@),
{
    match platform {
        Platform::Linux => has_extension_chars(chars_of(file_name).as_slice(), "desktop"),
        Platform::Windows => is_folder_entry_name(file_name),
        Platform::Unsupported => false,
    }
}

/// The entry that `f` stands for on `platform`, if any: a `.desktop` file
/// whose content could be read, or a file that the Startup folder runs.
pub open spec fn decode(platform: Platform, f: FileModel) -> Option<AppModel> {
    if !is_storage_file(platform, f.file_name) {
        None
    } else {
        match platform {
            Platform::Linux => match f.content {
                Some(c) => Some(desktop_entry(f.file_name, f.path, c)),
                None => None,
            },
            _ => Some(folder_entry(f.file_name, f.path)),
        }
    }
}

/// The entries that `files` stand for, in their order; the others are left
/// out.
pub open spec fn discovered(platform: Platform, files: Seq<FileModel>) -> Seq<AppModel>
    decreases files.len(),
{
    if files.len() == 0 {
        Seq::empty()
    } else {
        let rest = discovered(platform, files.subrange(0, files.len() - 1));
        match decode(platform, files[files.len() - 1]) {
            Some(e) => rest.push(e),
            None => rest,
        }
    }
}

/// What the vectors of entries hold.
pub open spec fn app_views(v: Seq<StartupApp>) -> Seq<AppModel> {
    v.map_values(|a: StartupApp| a@)
}

/// What the storage files hold.
pub open spec fn file_views(v: Seq<StorageFile>) -> Seq<FileModel> {
    v.map_values(|f: StorageFile| f@)
}

/// Lists the startup entries among the files of the storage directory. A
/// file that is no entry, or a `.desktop` file that could not be read, is
/// skipped; the rest keep their order.
pub fn get_startup_apps(platform: Platform, files: &Vec<StorageFile>) -> (r: Vec<StartupApp>)
    ensures
        app_views(r@) == discovered(platform, file_views(files@)),
{
    let mut out: Vec<StartupApp> = Vec::new();
    let mut i: usize = 0;
    while i < files.len()
        invariant
            i <= files@.len(),
            app_views(out@) == discovered(platform, file_views(files@).subrange(0, i as int)),
        decreases files@.len() - i,
    {
        let f = &files[i];
        let ghost before = app_views(out@);
        let ghost upto = file_views(files@).subrange(0, i + 1);
        assert(upto.subrange(0, i as int) =~= file_views(files@).subrange(0, i as int));
        assert(upto[i as int] == f@);
        if is_startup_file(platform, f.file_name.as_str()) {
            match platform {
                Platform::Linux => {
                    match &f.content {
                        Some(c) => {
                            let e = parse_desktop_entry(
                                f.file_name.as_str(),
                                f.path.as_str(),
                                c.as_str(),
                            );
                            out.push(e);
                            assert(app_views(out@) =~= before.push(e@));
                        },
                        None => {},
                    }
                },
                _ => {
                    let e = parse_folder_entry(f.file_name.as_str(), f.path.as_str());
                    out.push(e);
                    assert(app_views(out@) =~= before.push(e@));
                },
            }
        }
        i = i + 1;
    }
    assert(file_views(files@).subrange(0, files@.len() as int) =~= file_views(files@));
    out
}

/// The file work that a toggle asks for.
pub enum ToggleStep {
    /// Read the `.desktop` file, rewrite it with `toggle_content`, and write
    /// it back in place.
    Rewrite,
    /// Rename the file to this path.
    Rename(String),
    /// Nothing: the entry is already enabled.
    Unchanged,
}

/// Decides how the entry at `path` is enabled or disabled on `platform`:
/// a `.desktop` file is rewritten; a Startup-folder file is renamed to gain
/// or lose the `.disabled` suffix, or stays where it is when it is already
/// enabled; elsewhere the operation is refused.
pub fn toggle_app(platform: Platform, path: &str, enable: bool) -> (r: Result<ToggleStep, String>)
    ensures
        match platform {
            Platform::Linux => r matches Ok(ToggleStep::Rewrite),
            Platform::Windows => match r {
                Ok(ToggleStep::Rename(q)) => toggled_path(path@, enable) == Some(q@),
                Ok(ToggleStep::Unchanged) => toggled_path(path@, enable) is None,
                _ => false,
            },
            Platform::Unsupported => match r {
                Err(e) => e@ == unsupported_message(),
                _ => false,
            },
        },
{
    match platform {
        Platform::Linux => Ok(ToggleStep::Rewrite),
        Platform::Windows => {
            let moved = toggle_path(path, enable);
            assert(opt_view_ok(moved, toggled_path(path@, enable)));
            match moved {
                Some(q) => Ok(ToggleStep::Rename(q)),
                None => Ok(ToggleStep::Unchanged),
            }
        },
        Platform::Unsupported => Err("Not supported on this OS".to_owned()),
    }
}

/// What `str::to_lowercase` makes of `s`.
pub uninterp spec fn lower_of(s: Seq<char>) -> Seq<char>;

/// Relies on `str::to_lowercase`: the lower-case form of `s` under Unicode's
/// case mapping, which depends on the characters of `s` alone.
#[verifier::external_body]
fn lowercase(s: &str) -> (r: String)
    ensures
        r@ == lower_of(s@),
{
    s.to_lowercase()
}

/// A space, a slash or a backslash, which file names do not keep.
pub open spec fn is_name_separator(c: char) -> bool {
    c == ' ' || c == '/' || c == '\\'
}

/// `name` with every space, slash and backslash turned into a hyphen.
pub open spec fn hyphenated(name: Seq<char>) -> Seq<char> {
    name.map_values(|c: char| if is_name_separator(c) { '-' } else { c })
}

/// Turns every space, slash and backslash of `name` into a hyphen.
pub fn hyphenate(name: &str) -> (r: String)
    ensures
        r@ == hyphenated(name@),
{
    let cs = chars_of(name);
    let mut out: Vec<char> = Vec::new();
    let mut i: usize = 0;
    while i < cs.len()
        invariant
            i <= cs@.len(),
            out@ == hyphenated(cs@.subrange(0, i as int)),
        decreases cs@.len() - i,
    {
        let c = cs[i];
        if c == ' ' || c == '/' || c == '\\' {
            out.push('-');
        } else {
            out.push(c);
        }
        i = i + 1;
        assert(out@ =~= hyphenated(cs@.subrange(0, i as int)));
    }
    assert(cs@.subrange(0, cs@.len() as int) =~= cs@);
    string_of(out.as_slice())
}

/// A file to be written into the storage directory.
pub struct NewEntryFile {
    pub file_name: String,
    pub content: String,
}

/// The file, as name and content, that creating an entry writes on
/// `platform`, where `stem` is the file name without its extension; `None`
/// where the platform has no startup entries.
pub open spec fn created_file(
    platform: Platform,
    stem: Seq<char>,
    name: Seq<char>,
    command: Seq<char>,
    description: Seq<char>,
) -> Option<(Seq<char>, Seq<char>)> {
    match platform {
        Platform::Linux => Some((stem + ".desktop"@, desktop_file(name, command, description))),
        Platform::Windows => Some((stem + ".bat"@, batch_file(command))),
        Platform::Unsupported => None,
    }
}

/// The file name of a new entry: `name` hyphenated, then lower-cased.
pub open spec fn file_stem(name: Seq<char>) -> Seq<char> {
    lower_of(hyphenated(name))
}

/// The outcome `r` of a creation matches `expected`: the file when there is
/// one, the refusal when there is none.
pub open spec fn creation_matches(
    r: Result<NewEntryFile, String>,
    expected: Option<(Seq<char>, Seq<char>)>,
) -> bool {
    match r {
        Ok(f) => expected == Some((f.file_name@, f.content@)),
        Err(e) => expected is None && e@ == unsupported_message(),
    }
}

/// Builds the file that a new entry on `platform` is stored in, named `stem`
/// plus the platform's extension: a `.desktop` file with the given fields,
/// or a batch file that starts `command` (the description has no place
/// there). Refused where the platform has no startup entries.
pub fn new_entry_file(
    platform: Platform,
    stem: &str,
    name: &str,
    command: &str,
    description: &str,
) -> (r: Result<NewEntryFile, String>)
    ensures
        creation_matches(r, created_file(platform, stem@, name@, command@, description@)),
{
    match platform {
        Platform::Linux => {
            let mut file_name = stem.to_owned();
            file_name.append(".desktop");
            Ok(NewEntryFile { file_name, content: desktop_file_content(name, command, description) })
        },
        Platform::Windows => {
            let mut file_name = stem.to_owned();
            file_name.append(".bat");
            Ok(NewEntryFile { file_name, content: batch_file_content(command) })
        },
        Platform::Unsupported => Err("Not supported on this OS".to_owned()),
    }
}

/// Builds the file that a new entry named `name` is stored in on `platform`.
/// Its file name is `name` with spaces, slashes and backslashes turned into
/// hyphens, lower-cased, with the platform's extension.
pub fn create_app(platform: Platform, name: &str, command: &str, description: &str) -> (r: Result<
    NewEntryFile,
    String,
>)
    ensures
        creation_matches(
            r,
            created_file(platform, file_stem(name@), name@, command@, description@),
        ),
{
    if platform == Platform::Unsupported {
        return Err("Not supported on this OS".to_owned());
    }
    let stem = lowercase(hyphenate(name).as_str());
    new_entry_file(platform, stem.as_str(), name, command, description)
}

} // verus!
