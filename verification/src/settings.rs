use vstd::prelude::*;
use crate::types::{Settings, SortKey};

verus! {

/// The settings file name inside the settings directory.
pub const SETTINGS_FILE: &'static str = "settings.json";

/// The temporary file a new settings file is written to before it replaces
/// the old one.
pub const SETTINGS_TEMP: &'static str = "settings.json.tmp";

/// The version of the settings layout written by this library.
pub const CURRENT_SCHEMA_VERSION: u32 = 1;

/// The settings used when none were saved: current schema, hidden files
/// not shown, extensions shown, sorted by name in ascending order.
pub fn default_settings() -> (s: Settings)
    ensures
        s.schema_version == CURRENT_SCHEMA_VERSION,
        !s.show_hidden_files,
        s.show_file_extensions,
        s.sort_key == SortKey::Name,
        s.sort_ascending,
{
    Settings {
        schema_version: CURRENT_SCHEMA_VERSION,
        show_hidden_files: false,
        show_file_extensions: true,
        sort_key: SortKey::Name,
        sort_ascending: true,
    }
}

} // verus!
