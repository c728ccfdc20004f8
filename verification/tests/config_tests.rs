use sax::cli::strip_preference;
use sax::config::{config_path, Config, ConfigPathError, ExtractPrefs};

#[test]
fn config_defaults_strip_top_level_dir_to_true() {
    assert!(Config::default().extract_prefs.strip_top_level_dir);
}

#[test]
fn extract_prefs_default_strips() {
    assert_eq!(ExtractPrefs::default(), ExtractPrefs { strip_top_level_dir: true });
}

#[test]
fn config_path_prefers_xdg_config_home() {
    assert_eq!(
        config_path(Some(b"/xdg"), Some(b"/home/u")),
        Ok(b"/xdg/sax/config.yaml".to_vec())
    );
}

#[test]
fn config_path_ignores_empty_xdg_config_home() {
    assert_eq!(
        config_path(Some(b""), Some(b"/home/u")),
        Ok(b"/home/u/.config/sax/config.yaml".to_vec())
    );
    assert_eq!(config_path(None, Some(b"/home/u/")), Ok(b"/home/u/.config/sax/config.yaml".to_vec()));
}

#[test]
fn config_path_fails_without_home() {
    assert_eq!(config_path(None, None), Err(ConfigPathError::NoConfigDirectory));
    assert_eq!(config_path(Some(b""), None), Err(ConfigPathError::NoConfigDirectory));
}

#[test]
fn strip_preference_follows_flags_then_configuration() {
    assert_eq!(strip_preference(true, false), Some(true));
    assert_eq!(strip_preference(false, true), Some(false));
    assert_eq!(strip_preference(false, false), None);
}
