use vstd::prelude::*;

verus! {

/// One startup entry as discovery reports it.
pub struct StartupApp {
    /// The backing file's name; it tells entries of one directory apart.
    pub id: String,
    /// The display name.
    pub name: String,
    /// The command line that starts the program.
    pub command: String,
    /// Whether the entry runs at the next login.
    pub enabled: bool,
    /// Where the backing file lies; toggling and deleting go through it.
    pub path: String,
}

/// What a `StartupApp` holds.
pub struct AppModel {
    pub id: Seq<char>,
    pub name: Seq<char>,
    pub command: Seq<char>,
    pub enabled: bool,
    pub path: Seq<char>,
}

impl View for StartupApp {
    type V = AppModel;

    open spec fn view(&self) -> AppModel {
        AppModel {
            id: self.id@,
            name: self.name@,
            command: self.command@,
            enabled: self.enabled,
            path: self.path@,
        }
    }
}

} // verus!
