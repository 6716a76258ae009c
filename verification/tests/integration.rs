use chiba::cmd::integration::{
    already_current, installed_version, link_error_is_benign, lists_plugin, plugin_dir,
    plugin_state, state_label, PluginState, VERSION,
};

#[test]
fn version_parsing_handles_absent_and_malformed_markers() {
    assert_eq!(installed_version("no marker here"), None);
    assert_eq!(installed_version("# CHIBA_HERDR_PLUGIN_VERSION=7"), Some(7));
    assert_eq!(installed_version("# CHIBA_HERDR_PLUGIN_VERSION=x"), None);
    // Only the header is scanned, so a mention further down can't confuse it.
    let late = "\n".repeat(20) + "# CHIBA_HERDR_PLUGIN_VERSION=9";
    assert_eq!(installed_version(&late), None);
}

#[test]
fn version_parsing_takes_leading_digits_and_rejects_overflow() {
    assert_eq!(installed_version("x = 1\n# CHIBA_HERDR_PLUGIN_VERSION=  12abc\n"), Some(12));
    assert_eq!(installed_version("# CHIBA_HERDR_PLUGIN_VERSION=4294967295"), Some(u32::MAX));
    assert_eq!(installed_version("# CHIBA_HERDR_PLUGIN_VERSION=4294967296"), None);
    let tenth = "\n".repeat(9) + "# CHIBA_HERDR_PLUGIN_VERSION=3";
    assert_eq!(installed_version(&tenth), Some(3));
    let eleventh = "\n".repeat(10) + "# CHIBA_HERDR_PLUGIN_VERSION=3";
    assert_eq!(installed_version(&eleventh), None);
}

#[test]
fn status_reports_each_state() {
    let current = format!("# CHIBA_HERDR_PLUGIN_VERSION={VERSION}\n");
    assert_eq!(plugin_state(None), PluginState::NotInstalled);
    assert_eq!(plugin_state(Some(&current)), PluginState::Current);
    assert_eq!(plugin_state(Some("# CHIBA_HERDR_PLUGIN_VERSION=1\n")), PluginState::Outdated(1));
    assert_eq!(plugin_state(Some("id = \"x\"\n")), PluginState::UnknownVersion);
    assert_eq!(state_label(PluginState::NotInstalled), "not installed");
    assert_eq!(state_label(PluginState::Current), "current (v2)");
    assert_eq!(
        state_label(PluginState::Outdated(1)),
        "outdated (v1, latest v2) — run `chiba integration herdr`"
    );
    assert_eq!(state_label(PluginState::UnknownVersion), "installed, version unknown");
}

#[test]
fn install_stops_early_only_when_current_and_not_forced() {
    let current = format!("# CHIBA_HERDR_PLUGIN_VERSION={VERSION}\n");
    assert!(already_current(Some(&current), false));
    assert!(!already_current(Some(&current), true));
    assert!(!already_current(Some("# CHIBA_HERDR_PLUGIN_VERSION=1\n"), false));
    assert!(!already_current(None, false));
}

#[test]
fn link_and_list_output_are_read_as_herdr_writes_them() {
    assert!(link_error_is_benign("Error: plugin ALREADY linked"));
    assert!(!link_error_is_benign("Error: no such directory"));
    assert!(lists_plugin("dgnsrekt.chiba  /home/u/.config/chiba/herdr\n"));
    assert!(!lists_plugin("other.plugin\n"));
    assert_eq!(plugin_dir(Some("/home/u/.config")).as_deref(), Some("/home/u/.config/chiba/herdr"));
    assert!(plugin_dir(None).is_none());
}
