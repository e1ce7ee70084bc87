pub mod desktop;
pub mod entry;
pub mod folder;
pub mod laws;
pub mod startup;
pub mod text;

pub use entry::StartupApp;
pub use startup::{
    create_app, get_startup_apps, is_startup_file, new_entry_file, toggle_app, NewEntryFile,
    Platform, StorageFile, ToggleStep,
};
