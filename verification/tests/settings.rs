use rustfiles::settings::{default_settings, CURRENT_SCHEMA_VERSION};
use rustfiles::types::{Settings, SortKey};

#[test]
fn default_settings_returns_default_values() {
    let s = default_settings();
    assert_eq!(s.schema_version, 1);
    assert_eq!(s.schema_version, CURRENT_SCHEMA_VERSION);
    assert!(!s.show_hidden_files);
    assert!(s.show_file_extensions);
    assert_eq!(s.sort_key, SortKey::Name);
    assert!(s.sort_ascending);
}

#[test]
fn settings_contains_required_fields() {
    let settings = Settings {
        schema_version: 1,
        show_hidden_files: false,
        show_file_extensions: true,
        sort_key: SortKey::Name,
        sort_ascending: true,
    };
    assert_eq!(settings.schema_version, 1);
    assert!(!settings.show_hidden_files);
    assert!(settings.show_file_extensions);
    assert_eq!(settings.sort_key, SortKey::Name);
    assert!(settings.sort_ascending);
}
