//! XDG base directory resolution, from the values of the environment
//! variables involved.
use vstd::prelude::*;
use crate::chars::{chars_of, string_of};
use crate::paths::{is_absolute, join, path_is_absolute, path_join};
use crate::todo::opt_view;

verus! {

/// A resolved base directory, and the value of the variable when it was
/// ignored for not being absolute (worth a warning, so users debugging path
/// resolution see why their override did not take effect).
pub struct BaseDir {
    pub dir: Option<String>,
    pub ignored: Option<String>,
}

/// The directory: the variable's value when it is set and absolute (the
/// XDG spec says it must be), else `<home>/<fallback>`, else nothing.
pub open spec fn base_dir_spec(value: Option<&str>, home: Option<&str>, fallback: Seq<char>) -> Option<
    Seq<char>,
> {
    match value {
        Some(v) if v@.len() > 0 && path_is_absolute(v@) => Some(v@),
        _ => match home {
            Some(h) => Some(path_join(h@, fallback)),
            None => None,
        },
    }
}

/// The value ignored for not being absolute, if any.
pub open spec fn ignored_spec(value: Option<&str>) -> Option<Seq<char>> {
    match value {
        Some(v) if v@.len() > 0 && !path_is_absolute(v@) => Some(v@),
        _ => None,
    }
}

fn base_dir(value: Option<&str>, home: Option<&str>, fallback: &str) -> (r: BaseDir)
    ensures
        opt_view(r.dir) == base_dir_spec(value, home, fallback@),
        opt_view(r.ignored) == ignored_spec(value),
{
    let mut ignored: Option<String> = None;
    match value {
        Some(v) => {
            let cs = chars_of(v);
            if cs.len() > 0 {
                if is_absolute(v) {
                    return BaseDir { dir: Some(string_of(cs.as_slice())), ignored: None };
                }
                ignored = Some(string_of(cs.as_slice()));
            }
        },
        None => {},
    }
    let dir = match home {
        Some(h) => Some(join(h, fallback)),
        None => None,
    };
    BaseDir { dir, ignored }
}

/// The XDG base config directory: `$XDG_CONFIG_HOME`, or `~/.config`.
pub fn config_home(xdg_config_home: Option<&str>, home: Option<&str>) -> (r: BaseDir)
    ensures
        opt_view(r.dir) == base_dir_spec(xdg_config_home, home, ".config"@),
        opt_view(r.ignored) == ignored_spec(xdg_config_home),
{
    base_dir(xdg_config_home, home, ".config")
}

/// The XDG base state directory: `$XDG_STATE_HOME`, or `~/.local/state`.
/// herdr keeps per-plugin state under it, which is how chiba finds the drop
/// box its herdr plugin reads on startup.
pub fn state_home(xdg_state_home: Option<&str>, home: Option<&str>) -> (r: BaseDir)
    ensures
        opt_view(r.dir) == base_dir_spec(xdg_state_home, home, ".local/state"@),
        opt_view(r.ignored) == ignored_spec(xdg_state_home),
{
    base_dir(xdg_state_home, home, ".local/state")
}

} // verus!
