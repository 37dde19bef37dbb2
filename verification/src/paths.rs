//! Where RepoHarbor keeps its files: `<data>/repoharbor` and
//! `<config>/repoharbor/config.toml`, with the previous product name
//! (`orrery`) as a read-only fallback; and redacting the home directory out of
//! text that may leave the machine.
use vstd::prelude::*;

use crate::scan::joined;
use crate::text::{
    chars_of, contains, contains_chars, ends_with, ends_with_str, push_all, push_str, replace, replace_chars,
    starts_with_str, string_from,
};

verus! {

/// The data directory's name for this app.
pub const APP: &'static str = "repoharbor";

/// The previous product's directory name (read fallback only).
pub const LEGACY_APP: &'static str = "orrery";

/// `dirs::home_dir`: the user's home directory, as text. It depends on the
/// environment, so nothing is stated of it.
#[verifier::external_body]
pub(crate) fn home_dir() -> (r: Option<String>) {
    dirs::home_dir().map(|p| p.to_string_lossy().into_owned())
}

/// `dirs::data_dir`: the user's data directory (`~/.local/share`), as text.
/// It depends on the environment, so nothing is stated of it.
#[verifier::external_body]
fn base_data_dir() -> (r: Option<String>) {
    dirs::data_dir().map(|p| p.to_string_lossy().into_owned())
}

/// `dirs::config_dir`: the user's config directory (`~/.config`), as text.
/// It depends on the environment, so nothing is stated of it.
#[verifier::external_body]
fn base_config_dir() -> (r: Option<String>) {
    dirs::config_dir().map(|p| p.to_string_lossy().into_owned())
}

/// `which::which(name)`: the path of the program `name` found on `PATH`, as
/// text. For a non-empty name without a `/`, `which` (on Unix) returns a
/// `PATH` directory joined with `name`, so the path is `name` itself (an empty
/// `PATH` entry with no current directory) or ends in `/name`. Whether and
/// where the program is found depends on the machine; nothing more is stated.
#[verifier::external_body]
pub(crate) fn find_program(name: &str) -> (r: Option<String>)
    ensures
        name@.len() > 0 && !name@.contains('/') ==> (r matches Some(p) ==> (p@ == name@
            || ends_with(p@, "/"@ + name@))),
{
    match which::which(name) {
        Ok(p) => Some(p.to_string_lossy().into_owned()),
        Err(_) => None,
    }
}

/// `base.join(rest)` for `/`-separated paths: an absolute `rest` replaces
/// `base`, otherwise one separator goes between them.
pub fn join_path(base: &str, rest: &str) -> (r: String)
    ensures
        r@ == joined(base@, rest@),
{
    let b = chars_of(base);
    let t = chars_of(rest);
    if starts_with_str(&t, "/") || b.len() == 0 {
        string_from(&t)
    } else if ends_with_str(&b, "/") {
        let mut v = b;
        push_all(&mut v, &t);
        string_from(&v)
    } else {
        let mut v = b;
        push_str(&mut v, "/");
        push_all(&mut v, &t);
        string_from(&v)
    }
}

/// The app directory under a base directory.
pub fn app_dir_under(base: &str) -> (r: String)
    ensures
        r@ == joined(base@, APP@),
{
    join_path(base, APP)
}

/// The config file under a config base directory.
pub fn config_file_under(base: &str, app: &str) -> (r: String)
    ensures
        r@ == joined(joined(base@, app@), "config.toml"@),
{
    let d = join_path(base, app);
    join_path(d.as_str(), "config.toml")
}

/// Writable data directory: `<data>/repoharbor`.
pub fn data_dir() -> (r: Option<String>)
    ensures
        r matches Some(d) ==> exists|b: Seq<char>| d@ == joined(b, APP@),
{
    match base_data_dir() {
        Some(b) => Some(app_dir_under(b.as_str())),
        None => None,
    }
}

/// The previous product's data directory (read fallback only).
pub fn legacy_data_dir() -> (r: Option<String>)
    ensures
        r matches Some(d) ==> exists|b: Seq<char>| d@ == joined(b, LEGACY_APP@),
{
    match base_data_dir() {
        Some(b) => Some(join_path(b.as_str(), LEGACY_APP)),
        None => None,
    }
}

/// Writable config file: `<config>/repoharbor/config.toml`.
pub fn config_write_path() -> (r: Option<String>)
    ensures
        r matches Some(p) ==> exists|b: Seq<char>| p@ == joined(joined(b, APP@), "config.toml"@),
{
    match base_config_dir() {
        Some(b) => Some(config_file_under(b.as_str(), APP)),
        None => None,
    }
}

/// The previous product's config file (read fallback only).
pub fn legacy_config_path() -> (r: Option<String>)
    ensures
        r matches Some(p) ==> exists|b: Seq<char>| p@ == joined(joined(b, LEGACY_APP@), "config.toml"@),
{
    match base_config_dir() {
        Some(b) => Some(config_file_under(b.as_str(), LEGACY_APP)),
        None => None,
    }
}

/// Which file to read: the new one when it exists, else the legacy one when
/// that exists, else the (not yet created) new one. Writes always go to the
/// new path.
pub fn read_path_choice(new: String, legacy: Option<String>, new_exists: bool, legacy_exists: bool) -> (r:
    String)
    ensures
        r@ == if new_exists {
            new@
        } else {
            match legacy {
                Some(l) => if legacy_exists {
                    l@
                } else {
                    new@
                },
                None => new@,
            }
        },
{
    if new_exists {
        return new;
    }
    match legacy {
        Some(l) => if legacy_exists {
            l
        } else {
            new
        },
        None => new,
    }
}

/// `text` with every occurrence of the home directory replaced by `~` (the
/// text unchanged when the home is unknown or empty).
pub open spec fn redacted(text: Seq<char>, home: Option<Seq<char>>) -> Seq<char> {
    match home {
        Some(h) => if h.len() == 0 || !contains(text, h) {
            text
        } else {
            replace(text, h, "~"@)
        },
        None => text,
    }
}

/// Redact `home` out of `text`.
pub fn redact_with_home(text: &str, home: Option<&str>) -> (r: String)
    ensures
        r@ == redacted(
            text@,
            match home {
                Some(h) => Some(h@),
                None => None,
            },
        ),
{
    let t = chars_of(text);
    match home {
        Some(h) => {
            let hv = chars_of(h);
            if hv.len() == 0 || !contains_chars(&t, &hv) {
                string_from(&t)
            } else {
                string_from(&replace_chars(&t, &hv, &chars_of("~")))
            }
        },
        None => string_from(&t),
    }
}

/// Replace the current user's home directory with `~`, so paths in text that
/// may be shared are less identifying.
pub fn redact_user_paths(text: &str) -> (r: String)
    ensures
        exists|h: Option<Seq<char>>| r@ == redacted(text@, h),
{
    match home_dir() {
        Some(h) => {
            let r = redact_with_home(text, Some(h.as_str()));
            proof {
                assert(r@ == redacted(text@, Some(h@)));
            }
            r
        },
        None => {
            let r = redact_with_home(text, None);
            proof {
                assert(r@ == redacted(text@, None));
            }
            r
        },
    }
}

} // verus!
