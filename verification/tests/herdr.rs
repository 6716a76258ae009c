use chiba::herdr::{
    count_markers, json_string, marker_body, marker_for, marker_path, markers_dir, pane_id,
    valid_pane_id, PLUGIN_ID,
};
use chiba::xdg::{config_home, state_home};
use std::path::Path;

#[test]
fn pane_ids_are_validated_before_becoming_filenames() {
    assert!(valid_pane_id("wK:pD"));
    assert!(valid_pane_id("w17:p1"));
    assert!(!valid_pane_id(""), "empty");
    assert!(!valid_pane_id("no-colon"), "must look like a pane id");
    assert!(!valid_pane_id("../../etc:passwd"), "no traversal");
    assert!(!valid_pane_id("wK:pD/x"), "no separators");
    assert!(!valid_pane_id(&"a:".repeat(40)), "bounded length");
}

#[test]
fn marker_filename_has_no_colon() {
    let p = marker_path("/tmp/x", "wK:pD");
    assert_eq!(Path::new(&p).file_name().unwrap(), "wK_pD.json");
}

#[test]
fn json_string_escapes_what_paths_can_contain() {
    assert_eq!(json_string("plain"), "\"plain\"");
    assert_eq!(json_string("quote\"here"), "\"quote\\\"here\"");
    assert_eq!(json_string("back\\slash"), "\"back\\\\slash\"");
    assert_eq!(json_string("new\nline"), "\"new\\nline\"");
    assert_eq!(json_string("bell\u{7}"), "\"bell\\u0007\"");
}

#[test]
fn json_string_escapes_the_remaining_control_characters() {
    assert_eq!(json_string("a\tb\rc"), "\"a\\tb\\rc\"");
    assert_eq!(json_string("\u{1f}\u{10}\u{0}"), "\"\\u001f\\u0010\\u0000\"");
    assert_eq!(json_string("é ü"), "\"é ü\"");
}

#[test]
fn state_dir_follows_xdg_override() {
    let state = state_home(Some("/tmp/chiba-xdg-test"), Some("/home/u"));
    let dir = markers_dir(state.dir.as_deref()).unwrap();
    assert_eq!(Path::new(&dir), Path::new("/tmp/chiba-xdg-test/herdr/plugins/dgnsrekt.chiba/panes"));
}

#[test]
fn xdg_falls_back_to_home_and_ignores_relative_values() {
    let s = state_home(None, Some("/home/u"));
    assert_eq!(s.dir.as_deref(), Some("/home/u/.local/state"));
    assert!(s.ignored.is_none());
    let c = config_home(Some("relative/dir"), Some("/home/u"));
    assert_eq!(c.dir.as_deref(), Some("/home/u/.config"));
    assert_eq!(c.ignored.as_deref(), Some("relative/dir"));
    let e = config_home(Some(""), None);
    assert!(e.dir.is_none());
    assert!(e.ignored.is_none());
    let a = config_home(Some("/etc/xdg"), None);
    assert_eq!(a.dir.as_deref(), Some("/etc/xdg"));
}

#[test]
fn outside_herdr_everything_is_a_no_op() {
    assert!(pane_id(None, Some("wK:pD".into())).is_none());
    assert!(pane_id(Some("0"), Some("wK:pD".into())).is_none());
    assert!(pane_id(Some("1"), None).is_none());
    assert!(pane_id(Some("1"), Some("bad/id".into())).is_none());
    assert_eq!(pane_id(Some("1"), Some("wK:pD".into())).as_deref(), Some("wK:pD"));
    assert!(marker_for(None, Some("/tmp/m".into()), "/home/u", "todo.md").is_none());
    assert!(marker_for(Some("wK:pD".into()), None, "/home/u", "todo.md").is_none());
}

#[test]
fn marker_records_the_pane_the_directory_and_the_absolute_file() {
    let m = marker_for(Some("wK:pD".into()), Some("/tmp/m".into()), "/home/u", "todo.md").unwrap();
    assert_eq!(m.dir, "/tmp/m");
    assert_eq!(m.path, "/tmp/m/wK_pD.json");
    assert_eq!(
        m.body,
        "{\"pane_id\":\"wK:pD\",\"cwd\":\"/home/u\",\"file\":\"/home/u/todo.md\"}\n"
    );
    let abs = marker_for(Some("w1:p2".into()), Some("/tmp/m".into()), "/home/u", "/srv/t.md").unwrap();
    assert!(abs.body.ends_with("\"file\":\"/srv/t.md\"}\n"));
    assert_eq!(marker_body("a:b", "/c", "/d"), "{\"pane_id\":\"a:b\",\"cwd\":\"/c\",\"file\":\"/d\"}\n");
}

#[test]
fn only_json_files_count_as_markers() {
    let names: Vec<String> = vec![
        "/m/w1_p1.json".into(),
        "/m/w1_p2.json".into(),
        "/m/notes.txt".into(),
        "/m/.json".into(),
        "/m/noext".into(),
    ];
    assert_eq!(count_markers(&names), 2);
    assert_eq!(PLUGIN_ID, "dgnsrekt.chiba");
}
