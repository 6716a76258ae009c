//! chiba's herdr plugin: where it is installed, which version a payload
//! carries, and what `status` and `install` conclude from what they find.
//!
//! The plugin is two small files written to chiba's own config directory
//! and registered with `herdr plugin link`; herdr's own files are never
//! touched. Running herdr and the file system are the caller's.
use vstd::prelude::*;
use crate::chars::{
    chars_of, contains_chars, contains_seq, decimal, decimal_string, find_chars, find_from,
    is_ascii_digit, push_str, trim, trim_chars,
};
use crate::doc::{lines_of, split_lines};
use crate::herdr::PLUGIN_ID;
use crate::paths::{join, path_join};

verus! {

/// Bumped whenever the payload changes, so `status` can report "outdated".
pub const VERSION: u32 = 2;

/// The marker comment a payload carries its version in.
pub const VERSION_MARKER: &'static str = "CHIBA_HERDR_PLUGIN_VERSION=";

/// `<config>/chiba/herdr`: inside chiba's own config directory, so an
/// uninstall can remove it wholesale.
pub open spec fn plugin_dir_spec(config: Seq<char>) -> Seq<char> {
    path_join(path_join(config, "chiba"@), "herdr"@)
}

pub fn plugin_dir(config_home: Option<&str>) -> (r: Option<String>)
    ensures
        match config_home {
            Some(c) => r matches Some(d) && d@ == plugin_dir_spec(c@),
            None => r is None,
        },
{
    match config_home {
        Some(c) => {
            let a = join(c, "chiba");
            Some(join(a.as_str(), "herdr"))
        },
        None => None,
    }
}

/// Only a payload's header is scanned: its first ten lines.
pub open spec fn header_lines(body: Seq<char>) -> Seq<Seq<char>> {
    let ls = lines_of(body);
    if ls.len() > 10 {
        ls.take(10)
    } else {
        ls
    }
}

/// What follows the marker in the first line that holds it.
pub open spec fn after_marker(ls: Seq<Seq<char>>) -> Option<Seq<char>>
    decreases ls.len(),
{
    if ls.len() == 0 {
        None
    } else {
        match find_from(ls[0], VERSION_MARKER@, 0) {
            Some(k) => Some(ls[0].skip(k + VERSION_MARKER@.len())),
            None => after_marker(ls.drop_first()),
        }
    }
}

/// The ASCII digits a text starts with.
pub open spec fn leading_digits(t: Seq<char>) -> Seq<char>
    decreases t.len(),
{
    if t.len() > 0 && is_ascii_digit(t[0]) {
        seq![t[0]] + leading_digits(t.drop_first())
    } else {
        Seq::empty()
    }
}

/// The number that decimal digits spell.
pub open spec fn digits_value(d: Seq<char>) -> nat
    decreases d.len(),
{
    if d.len() == 0 {
        0
    } else {
        digits_value(d.drop_last()) * 10 + ((d.last() as u32) as nat - 48) as nat
    }
}

/// Decimal digits as a `u32`: none when there are no digits or the number
/// does not fit.
pub open spec fn parse_u32_spec(d: Seq<char>) -> Option<u32> {
    if d.len() == 0 || digits_value(d) > u32::MAX {
        None
    } else {
        Some(digits_value(d) as u32)
    }
}

/// The version a payload declares: the digits right after the marker
/// (surrounding whitespace aside) in the first header line holding it.
pub open spec fn installed_version_spec(body: Seq<char>) -> Option<u32> {
    match after_marker(header_lines(body)) {
        Some(rest) => parse_u32_spec(leading_digits(trim(rest))),
        None => None,
    }
}

proof fn lemma_digits_value_grows(d: Seq<char>, i: int)
    requires
        0 <= i <= d.len(),
    ensures
        digits_value(d.take(i)) <= digits_value(d),
    decreases d.len() - i,
{
    if i < d.len() {
        lemma_digits_value_grows(d, i + 1);
        assert(d.take(i + 1).drop_last() =~= d.take(i));
    } else {
        assert(d.take(i) =~= d);
    }
}

/// The digits `t` starts with, as a `u32`.
fn parse_leading(t: &[char]) -> (r: Option<u32>)
    ensures
        r == parse_u32_spec(leading_digits(t@)),
{
    let mut n: usize = 0;
    while n < t.len() && '0' <= t[n] && t[n] <= '9'
        invariant
            n <= t@.len(),
            forall|j: int| 0 <= j < n ==> is_ascii_digit(#[trigger] t@[j]),
        decreases t@.len() - n,
    {
        n = n + 1;
    }
    let ghost d = t@.take(n as int);
    assert(leading_digits(t@) == d) by {
        lemma_leading_digits(t@, n as int);
    }
    if n == 0 {
        return None;
    }
    let mut v: u64 = 0;
    let mut i: usize = 0;
    while i < n
        invariant
            i <= n <= t@.len(),
            d == t@.take(n as int),
            leading_digits(t@) == d,
            forall|j: int| 0 <= j < n ==> is_ascii_digit(#[trigger] t@[j]),
            v == digits_value(d.take(i as int)),
            v <= u32::MAX,
        decreases n - i,
    {
        assert(d.take(i + 1).drop_last() =~= d.take(i as int));
        assert(d.take(i + 1).last() == t@[i as int]);
        let c = t[i];
        assert(is_ascii_digit(c));
        assert((c as u32) >= 48);
        let x: u64 = (c as u32 - 48) as u64;
        let w = v * 10 + x;
        if w > 4294967295u64 {
            proof {
                lemma_digits_value_grows(d, i + 1);
            }
            return None;
        }
        v = w;
        i = i + 1;
    }
    assert(d.take(n as int) =~= d);
    Some(v as u32)
}

proof fn lemma_leading_digits(t: Seq<char>, n: int)
    requires
        0 <= n <= t.len(),
        forall|j: int| 0 <= j < n ==> is_ascii_digit(#[trigger] t[j]),
        n == t.len() || !is_ascii_digit(t[n]),
    ensures
        leading_digits(t) == t.take(n),
    decreases n,
{
    if n > 0 {
        let u = t.drop_first();
        assert forall|j: int| 0 <= j < n - 1 implies is_ascii_digit(#[trigger] u[j]) by {
            assert(u[j] == t[j + 1]);
        }
        if n - 1 < u.len() {
            assert(u[n - 1] == t[n]);
        }
        lemma_leading_digits(u, n - 1);
        assert(t.take(n) =~= seq![t[0]] + u.take(n - 1));
    } else {
        assert(t.take(0) =~= Seq::<char>::empty());
    }
}

/// Parses the version marker out of an installed payload.
pub fn installed_version(body: &str) -> (r: Option<u32>)
    ensures
        r == installed_version_spec(body@),
{
    let sv = chars_of(body);
    let ls = split_lines(sv.as_slice());
    let marker = chars_of(VERSION_MARKER);
    let ghost hs = header_lines(body@);
    let limit: usize = if ls.len() > 10 {
        10
    } else {
        ls.len()
    };
    assert(hs.skip(0) =~= hs);
    let mut i: usize = 0;
    while i < limit
        invariant
            i <= limit,
            hs == header_lines(body@),
            limit == hs.len(),
            limit <= ls@.len(),
            marker@ == VERSION_MARKER@,
            forall|j: int| 0 <= j < hs.len() ==> #[trigger] hs[j] == ls@[j]@,
            after_marker(hs) == after_marker(hs.skip(i as int)),
        decreases limit - i,
    {
        let line = ls[i].as_slice();
        let n = line.len();
        assert(hs.skip(i as int)[0] == line@);
        match find_chars(line, marker.as_slice()) {
            Some(k) => {
                let start = k + marker.len();
                let rest = &line[start..n];
                assert(rest@ =~= line@.skip(start as int));
                let t = trim_chars(rest);
                assert(after_marker(hs.skip(i as int)) == Some(rest@));
                return parse_leading(t.as_slice());
            },
            None => {},
        }
        assert(hs.skip(i as int).drop_first() =~= hs.skip(i + 1));
        i = i + 1;
    }
    None
}

/// What `status` reports about the installed payload.
#[derive(Debug, Clone, Copy, PartialEq, Eq, Structural)]
pub enum PluginState {
    NotInstalled,
    Current,
    Outdated(u32),
    UnknownVersion,
}

pub open spec fn plugin_state_spec(manifest: Option<Seq<char>>) -> PluginState {
    match manifest {
        None => PluginState::NotInstalled,
        Some(b) => match installed_version_spec(b) {
            Some(v) => if v == VERSION {
                PluginState::Current
            } else {
                PluginState::Outdated(v)
            },
            None => PluginState::UnknownVersion,
        },
    }
}

/// The state of the plugin from its manifest, `None` when it could not be
/// read.
pub fn plugin_state(manifest: Option<&str>) -> (r: PluginState)
    ensures
        r == plugin_state_spec(
            match manifest {
                Some(b) => Some(b@),
                None => None,
            },
        ),
{
    match manifest {
        None => PluginState::NotInstalled,
        Some(b) => match installed_version(b) {
            Some(v) => if v == VERSION {
                PluginState::Current
            } else {
                PluginState::Outdated(v)
            },
            None => PluginState::UnknownVersion,
        },
    }
}

pub open spec fn state_label_spec(s: PluginState) -> Seq<char> {
    match s {
        PluginState::NotInstalled => "not installed"@,
        PluginState::Current => "current (v"@ + decimal(VERSION as nat) + ")"@,
        PluginState::Outdated(v) => "outdated (v"@ + decimal(v as nat) + ", latest v"@ + decimal(
            VERSION as nat,
        ) + ") — run `chiba integration herdr`"@,
        PluginState::UnknownVersion => "installed, version unknown"@,
    }
}

/// The words `status` prints for a state.
pub fn state_label(s: PluginState) -> (r: String)
    ensures
        r@ == state_label_spec(s),
{
    let mut out = String::new();
    match s {
        PluginState::NotInstalled => {
            push_str(&mut out, "not installed");
        },
        PluginState::Current => {
            push_str(&mut out, "current (v");
            let d = decimal_string(VERSION as usize);
            push_str(&mut out, d.as_str());
            push_str(&mut out, ")");
        },
        PluginState::Outdated(v) => {
            push_str(&mut out, "outdated (v");
            let d = decimal_string(v as usize);
            push_str(&mut out, d.as_str());
            push_str(&mut out, ", latest v");
            let l = decimal_string(VERSION as usize);
            push_str(&mut out, l.as_str());
            push_str(&mut out, ") — run `chiba integration herdr`");
        },
        PluginState::UnknownVersion => {
            push_str(&mut out, "installed, version unknown");
        },
    }
    assert(out@ =~= state_label_spec(s));
    out
}

/// Installing can stop early: the manifest on disk already carries this
/// version and the user did not ask to force a reinstall.
pub fn already_current(manifest: Option<&str>, force: bool) -> (r: bool)
    ensures
        r == (!force && match manifest {
            Some(b) => installed_version_spec(b@) == Some(VERSION),
            None => false,
        }),
{
    if force {
        return false;
    }
    match manifest {
        Some(b) => installed_version(b) == Some(VERSION),
        None => false,
    }
}

/// What `str::to_lowercase` gives for a string.
pub uninterp spec fn lowercase(s: Seq<char>) -> Seq<char>;

/// `str::to_lowercase`: the string with every character mapped to its
/// Unicode lower case. The result depends on the argument alone.
#[verifier::external_body]
fn to_lowercase(s: &str) -> (r: String)
    ensures
        r@ == lowercase(s@),
{
    s.to_lowercase()
}

/// A failed `herdr plugin link` that only says the plugin is already
/// linked is a success: the payload on disk is what changed, and herdr
/// re-reads it.
pub fn link_error_is_benign(stderr: &str) -> (r: bool)
    ensures
        r == contains_seq(lowercase(stderr@), "already"@),
{
    let l = to_lowercase(stderr);
    let lv = chars_of(l.as_str());
    let a = chars_of("already");
    contains_chars(lv.as_slice(), a.as_slice())
}

/// `herdr plugin list` output names chiba's plugin.
pub fn lists_plugin(stdout: &str) -> (r: bool)
    ensures
        r == contains_seq(stdout@, PLUGIN_ID@),
{
    let sv = chars_of(stdout);
    let p = chars_of(PLUGIN_ID);
    contains_chars(sv.as_slice(), p.as_slice())
}

} // verus!
