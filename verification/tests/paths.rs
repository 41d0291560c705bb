use std::path::{Path, PathBuf};

use nostra::fonts::{ActiveComposerFont, ComposerFont};
use nostra::paths::{config_dir_from_env, ConfigDir};

const ABSOLUTE_XDG: &str = "/var/lib/nostra-config";
const ABSOLUTE_HOME: &str = "/Users/example";

fn absolute(value: Option<&str>) -> Option<bool> {
    value.map(|value| Path::new(value).is_absolute())
}

fn config_dir(xdg: Option<&str>, home: Option<&str>, profile: Option<&str>) -> Option<PathBuf> {
    let dir = config_dir_from_env(absolute(xdg), absolute(home), absolute(profile))?;
    let root = match dir {
        ConfigDir::XdgConfigHome => xdg,
        ConfigDir::InHome => home,
        ConfigDir::InUserProfile => profile,
    }?;
    Some(match dir.subdirectory() {
        Some(name) => Path::new(root).join(name),
        None => PathBuf::from(root),
    })
}

#[test]
fn absolute_xdg_config_home_takes_priority() {
    assert_eq!(
        config_dir(Some(ABSOLUTE_XDG), Some(ABSOLUTE_HOME), None),
        Some(PathBuf::from(ABSOLUTE_XDG))
    );
}

#[test]
fn empty_xdg_config_home_falls_back_to_absolute_home() {
    assert_eq!(
        config_dir(Some(""), Some(ABSOLUTE_HOME), None),
        Some(PathBuf::from(ABSOLUTE_HOME).join(".config"))
    );
}

#[test]
fn relative_xdg_config_home_falls_back_to_absolute_home() {
    assert_eq!(
        config_dir(Some("relative-config"), Some(ABSOLUTE_HOME), None),
        Some(PathBuf::from(ABSOLUTE_HOME).join(".config"))
    );
}

#[test]
fn relative_or_empty_home_values_never_resolve_against_the_working_directory() {
    assert_eq!(config_dir(None, Some("relative-home"), Some("")), None);
}

#[test]
fn invalid_home_falls_back_to_an_absolute_user_profile() {
    assert_eq!(
        config_dir(None, Some("relative-home"), Some(ABSOLUTE_HOME)),
        Some(PathBuf::from(ABSOLUTE_HOME).join(".config"))
    );
}

#[test]
fn toggling_the_font_twice_leads_back() {
    let mut active = ActiveComposerFont::init(ComposerFont::MapleMono);
    assert_eq!(active.active().file(), "fonts/MapleMono-CN-Regular.ttf");
    active.toggle();
    assert_eq!(active, ActiveComposerFont(ComposerFont::JetBrainsMono));
    active.toggle();
    assert_eq!(active.active(), ComposerFont::MapleMono);
}
