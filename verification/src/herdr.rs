//! Breadcrumbs so a herdr pane that was running chiba comes back running
//! chiba.
//!
//! herdr restores every pane as a fresh shell in its saved directory. chiba
//! leaves a marker file while it runs, and a small herdr plugin reads those
//! markers on startup and types `chiba` back into the matching panes. The
//! marker is written on start and removed on a clean exit: quitting should
//! not resurrect chiba, being killed by a herdr restart should.
//!
//! This module decides where markers live, which panes qualify and what a
//! marker says; the environment and the file system are the caller's.
use vstd::prelude::*;
use crate::chars::{chars_of, digit_char, is_ascii_alnum, push_char, push_str, string_of};
use crate::paths::{extension_of, is_absolute, join, path_extension, path_is_absolute, path_join};
use crate::todo::{opt_view, strings_view};

verus! {

/// Plugin id, shared with the plugin's manifest. Also the directory name
/// herdr gives the plugin under its state directory.
pub const PLUGIN_ID: &'static str = "dgnsrekt.chiba";

/// `<state>/herdr/plugins/<PLUGIN_ID>/panes`.
pub open spec fn markers_dir_spec(state: Seq<char>) -> Seq<char> {
    path_join(path_join(path_join(path_join(state, "herdr"@), "plugins"@), PLUGIN_ID@), "panes"@)
}

/// The marker directory under the XDG state directory, mirroring herdr's
/// own per-plugin layout; `None` when there is no state directory.
pub fn markers_dir(state_home: Option<&str>) -> (r: Option<String>)
    ensures
        match state_home {
            Some(s) => r matches Some(d) && d@ == markers_dir_spec(s@),
            None => r is None,
        },
{
    match state_home {
        Some(s) => {
            let a = join(s, "herdr");
            let b = join(a.as_str(), "plugins");
            let c = join(b.as_str(), PLUGIN_ID);
            Some(join(c.as_str(), "panes"))
        },
        None => None,
    }
}

/// A character a pane id may hold.
pub open spec fn pane_char(c: char) -> bool {
    is_ascii_alnum(c) || c == ':' || c == '_' || c == '-'
}

/// Pane ids look like `<workspace>:p<n>`: non-empty, at most 64
/// characters, holding a `:`, and drawn from ASCII letters, digits, `:`,
/// `_` and `-` only. (Such a string is ASCII, so its length in characters
/// is its length in bytes.)
pub open spec fn valid_pane(s: Seq<char>) -> bool {
    &&& 0 < s.len() <= 64
    &&& s.contains(':')
    &&& forall|i: int| 0 <= i < s.len() ==> pane_char(#[trigger] s[i])
}

/// Pane ids come from the environment and land in a filename, so they are
/// kept to a conservative character set.
pub fn valid_pane_id(s: &str) -> (r: bool)
    ensures
        r == valid_pane(s@),
{
    let v = chars_of(s);
    if v.len() == 0 || v.len() > 64 {
        return false;
    }
    let mut colon = false;
    let mut i: usize = 0;
    while i < v.len()
        invariant
            i <= v@.len(),
            v@ == s@,
            forall|j: int| 0 <= j < i ==> pane_char(#[trigger] v@[j]),
            colon == v@.take(i as int).contains(':'),
        decreases v@.len() - i,
    {
        let c = v[i];
        if !(('0' <= c && c <= '9') || ('a' <= c && c <= 'z') || ('A' <= c && c <= 'Z') || c == ':'
            || c == '_' || c == '-') {
            assert(!pane_char(v@[i as int]));
            return false;
        }
        proof {
            let t = v@.take(i + 1);
            assert(t =~= v@.take(i as int).push(c));
            if colon {
                let k = choose|k: int| 0 <= k < i && v@.take(i as int)[k] == ':';
                assert(t[k] == ':');
            }
            if c == ':' {
                assert(t[i as int] == ':');
            }
            if t.contains(':') && !colon && c != ':' {
                let k = choose|k: int| 0 <= k < t.len() && t[k] == ':';
                assert(v@.take(i as int)[k] == ':');
            }
        }
        if c == ':' {
            colon = true;
        }
        i = i + 1;
    }
    assert(v@.take(i as int) =~= v@);
    colon
}

pub open spec fn inside_herdr(herdr_env: Option<&str>) -> bool {
    match herdr_env {
        Some(e) => e@ == seq!['1'],
        None => false,
    }
}

pub open spec fn pane_ok(pane: Option<String>) -> bool {
    match pane {
        Some(p) => valid_pane(p@),
        None => false,
    }
}

/// The pane chiba runs in: the pane id when `HERDR_ENV` is `1` and the id
/// is valid, `None` otherwise (outside herdr is not an error).
pub fn pane_id(herdr_env: Option<&str>, pane: Option<String>) -> (r: Option<String>)
    ensures
        r == (if inside_herdr(herdr_env) && pane_ok(pane) {
            pane
        } else {
            None
        }),
{
    let inside = match herdr_env {
        Some(e) => {
            let v = chars_of(e);
            let one = v.len() == 1 && v[0] == '1';
            if one {
                assert(v@ =~= seq!['1']);
            }
            one
        },
        None => false,
    };
    if !inside {
        return None;
    }
    match pane {
        Some(p) => {
            if valid_pane_id(p.as_str()) {
                Some(p)
            } else {
                None
            }
        },
        None => None,
    }
}

/// The marker's file name: the pane id with `:` made `_`, then `.json`.
pub open spec fn marker_name(pane: Seq<char>) -> Seq<char> {
    pane.map_values(|c: char| if c == ':' { '_' } else { c }) + ".json"@
}

/// The marker file for a pane in the marker directory. Colons are legal on
/// unix but hostile elsewhere and in shell globs; the reader reverses this.
pub fn marker_path(dir: &str, pane: &str) -> (r: String)
    ensures
        r@ == path_join(dir@, marker_name(pane@)),
{
    let v = chars_of(pane);
    let mut name = String::new();
    let mut i: usize = 0;
    while i < v.len()
        invariant
            i <= v@.len(),
            v@ == pane@,
            name@ == v@.take(i as int).map_values(|c: char| if c == ':' { '_' } else { c }),
        decreases v@.len() - i,
    {
        let c = v[i];
        push_char(&mut name, if c == ':' { '_' } else { c });
        assert(v@.take(i + 1).map_values(|c: char| if c == ':' { '_' } else { c }) =~= v@.take(
            i as int,
        ).map_values(|c: char| if c == ':' { '_' } else { c }).push(if c == ':' { '_' } else { c }));
        i = i + 1;
    }
    assert(v@.take(i as int) =~= v@);
    push_str(&mut name, ".json");
    join(dir, name.as_str())
}

/// A lower-case hexadecimal digit.
pub open spec fn hex_digit(d: nat) -> char {
    if d < 10 {
        digit_char(d)
    } else {
        ((d - 10 + 97) as u8) as char
    }
}

/// How one character is written inside a JSON string: quotes, backslashes
/// and the usual control characters get their short escapes, other control
/// characters `\u00XX`, everything else stands as it is.
pub open spec fn json_escape(c: char) -> Seq<char> {
    if c == '"' {
        seq!['\\', '"']
    } else if c == '\\' {
        seq!['\\', '\\']
    } else if c == '\n' {
        seq!['\\', 'n']
    } else if c == '\r' {
        seq!['\\', 'r']
    } else if c == '\t' {
        seq!['\\', 't']
    } else if (c as u32) < 32 {
        seq!['\\', 'u', '0', '0', hex_digit(((c as u32) / 16) as nat), hex_digit(((c as u32) % 16) as nat)]
    } else {
        seq![c]
    }
}

pub open spec fn json_escaped(s: Seq<char>) -> Seq<char>
    decreases s.len(),
{
    if s.len() == 0 {
        Seq::empty()
    } else {
        json_escaped(s.drop_last()) + json_escape(s.last())
    }
}

/// `s` as a JSON string literal.
pub open spec fn json_string_spec(s: Seq<char>) -> Seq<char> {
    seq!['"'] + json_escaped(s) + seq!['"']
}

fn hex_char(d: u32) -> (c: char)
    requires
        d < 16,
    ensures
        c == hex_digit(d as nat),
{
    if d < 10 {
        let b: u8 = d as u8 + 48;
        b as char
    } else {
        let b: u8 = d as u8 + 87;
        b as char
    }
}

/// Minimal JSON string escaping: quotes, backslashes and control
/// characters, all of which a path may legally contain.
pub fn json_string(s: &str) -> (r: String)
    ensures
        r@ == json_string_spec(s@),
{
    let v = chars_of(s);
    let mut out = String::new();
    push_char(&mut out, '"');
    let mut i: usize = 0;
    while i < v.len()
        invariant
            i <= v@.len(),
            v@ == s@,
            out@ == seq!['"'] + json_escaped(v@.take(i as int)),
        decreases v@.len() - i,
    {
        let c = v[i];
        let ghost before = out@;
        assert(v@.take(i + 1).drop_last() =~= v@.take(i as int));
        if c == '"' {
            push_char(&mut out, '\\');
            push_char(&mut out, '"');
        } else if c == '\\' {
            push_char(&mut out, '\\');
            push_char(&mut out, '\\');
        } else if c == '\n' {
            push_char(&mut out, '\\');
            push_char(&mut out, 'n');
        } else if c == '\r' {
            push_char(&mut out, '\\');
            push_char(&mut out, 'r');
        } else if c == '\t' {
            push_char(&mut out, '\\');
            push_char(&mut out, 't');
        } else if (c as u32) < 32 {
            let x = c as u32;
            push_char(&mut out, '\\');
            push_char(&mut out, 'u');
            push_char(&mut out, '0');
            push_char(&mut out, '0');
            push_char(&mut out, hex_char(x / 16));
            push_char(&mut out, hex_char(x % 16));
        } else {
            push_char(&mut out, c);
        }
        assert(out@ =~= before + json_escape(c));
        i = i + 1;
    }
    assert(v@.take(i as int) =~= v@);
    push_char(&mut out, '"');
    out
}

/// The marker's contents: one JSON object naming the pane, the working
/// directory and the open file, then a line feed.
pub open spec fn marker_body_spec(pane: Seq<char>, cwd: Seq<char>, file: Seq<char>) -> Seq<char> {
    "{\"pane_id\":"@ + json_string_spec(pane) + ",\"cwd\":"@ + json_string_spec(cwd)
        + ",\"file\":"@ + json_string_spec(file) + "}\n"@
}

pub fn marker_body(pane: &str, cwd: &str, file: &str) -> (r: String)
    ensures
        r@ == marker_body_spec(pane@, cwd@, file@),
{
    let mut out = String::new();
    push_str(&mut out, "{\"pane_id\":");
    let p = json_string(pane);
    push_str(&mut out, p.as_str());
    push_str(&mut out, ",\"cwd\":");
    let c = json_string(cwd);
    push_str(&mut out, c.as_str());
    push_str(&mut out, ",\"file\":");
    let f = json_string(file);
    push_str(&mut out, f.as_str());
    push_str(&mut out, "}\n");
    assert(out@ =~= marker_body_spec(pane@, cwd@, file@));
    out
}

/// The open file as an absolute path: chiba resolves its file relative to
/// the working directory, and a breadcrumb must make sense from anywhere.
pub open spec fn absolute_file_spec(file: Seq<char>, cwd: Seq<char>) -> Seq<char> {
    if path_is_absolute(file) {
        file
    } else {
        path_join(cwd, file)
    }
}

pub fn absolute_file(file: &str, cwd: &str) -> (r: String)
    ensures
        r@ == absolute_file_spec(file@, cwd@),
{
    if is_absolute(file) {
        let v = chars_of(file);
        string_of(v.as_slice())
    } else {
        join(cwd, file)
    }
}

/// A marker to write: the directory to create, the file, its contents.
pub struct Marker {
    pub dir: String,
    pub path: String,
    pub body: String,
}

/// What recording that chiba runs in a pane writes: nothing outside herdr
/// or without a state directory, else the pane's marker, naming the
/// absolute path of the open file.
pub fn marker_for(pane: Option<String>, dir: Option<String>, cwd: &str, file: &str) -> (r: Option<
    Marker,
>)
    ensures
        match (pane, dir) {
            (Some(p), Some(d)) => r matches Some(m) && m.dir@ == d@ && m.path@ == path_join(
                d@,
                marker_name(p@),
            ) && m.body@ == marker_body_spec(p@, cwd@, absolute_file_spec(file@, cwd@)),
            _ => r is None,
        },
{
    match (pane, dir) {
        (Some(p), Some(d)) => {
            let f = absolute_file(file, cwd);
            let path = marker_path(d.as_str(), p.as_str());
            let body = marker_body(p.as_str(), cwd, f.as_str());
            Some(Marker { dir: d, path, body })
        },
        _ => None,
    }
}

/// How many of the names are pane markers, that is end in a `json`
/// extension.
pub open spec fn marker_count_spec(names: Seq<Seq<char>>) -> nat
    decreases names.len(),
{
    if names.len() == 0 {
        0
    } else {
        marker_count_spec(names.drop_last()) + if path_extension(names.last()) == Some("json"@) {
            1nat
        } else {
            0nat
        }
    }
}

/// The number of markers among the entries of the marker directory.
pub fn count_markers(names: &Vec<String>) -> (n: usize)
    ensures
        n == marker_count_spec(strings_view(names@)),
{
    let ghost nv = strings_view(names@);
    let mut n: usize = 0;
    let mut i: usize = 0;
    while i < names.len()
        invariant
            i <= names@.len(),
            nv == strings_view(names@),
            n == marker_count_spec(nv.take(i as int)),
            n <= i,
        decreases names@.len() - i,
    {
        assert(nv.take(i + 1).drop_last() =~= nv.take(i as int));
        assert(nv.take(i + 1).last() == names@[i as int]@);
        let is_json = match extension_of(names[i].as_str()) {
            Some(x) => {
                let v = chars_of(x.as_str());
                let j = ['j', 's', 'o', 'n'];
                proof {
                    reveal_strlit("json");
                    assert(j@ =~= "json"@);
                }
                crate::chars::chars_eq(v.as_slice(), &j)
            },
            None => false,
        };
        if is_json {
            n = n + 1;
        }
        i = i + 1;
    }
    assert(nv.take(i as int) =~= nv);
    n
}


/// A valid pane id makes a plain file name: its marker's name holds no
/// `:`, no path separator and no `.` but the one before `json`, so the
/// environment cannot steer a marker outside the marker directory.
pub proof fn law_marker_name_is_safe(pane: Seq<char>)
    requires
        valid_pane(pane),
    ensures
        marker_name(pane).len() == pane.len() + 5,
        marker_name(pane).skip(pane.len() as int) == ".json"@,
        forall|i: int| 0 <= i < pane.len() ==> {
            let c = #[trigger] marker_name(pane)[i];
            c != ':' && c != '/' && c != '\\' && c != '.'
        },
{
    reveal_strlit(".json");
    let n = marker_name(pane);
    assert(n.skip(pane.len() as int) =~= ".json"@);
    assert forall|i: int| 0 <= i < pane.len() implies {
        let c = #[trigger] n[i];
        c != ':' && c != '/' && c != '\\' && c != '.'
    } by {
        assert(pane_char(pane[i]));
    }
}

} // verus!
