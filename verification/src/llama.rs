//! The bundled llama.cpp backend's file rules: which files are GGUF models,
//! what a downloaded model is named, whether a binary is executable, and
//! where models live. Spawning the server and HTTP are I/O.
use vstd::prelude::*;

use crate::scan::joined;
use crate::text::{
    after_last, after_last_chars, char_pos, chars_of, ends_with, ends_with_str, lowercase,
    rsplit_once_char, rsplit_once_char_chars, slice_of, str_eq, string_from, to_lowercase,
};

verus! {

/// GGUF fixed header: magic (4) + version (4) + tensor count (8) + metadata
/// kv count (8).
pub const GGUF_HEADER_LEN: u64 = 24;

/// Whether a file looks like a real GGUF model: at least a full fixed header
/// long, and its first bytes the `GGUF` magic.
pub open spec fn gguf_ok(file_len: u64, head: Seq<u8>) -> bool {
    &&& file_len >= GGUF_HEADER_LEN
    &&& head.len() >= 4
    &&& head[0] == 71u8 && head[1] == 71u8 && head[2] == 85u8 && head[3] == 70u8
}

/// The GGUF check on a file's length and its first bytes (a cheap test that
/// rejects empty or truncated downloads and files that are not GGUF).
pub fn valid_gguf_header(file_len: u64, head: &[u8]) -> (r: bool)
    ensures
        r == gguf_ok(file_len, head@),
{
    file_len >= GGUF_HEADER_LEN && head.len() >= 4 && head[0] == 71u8 && head[1] == 71u8 && head[2]
        == 85u8 && head[3] == 70u8
}

/// Whether a Unix file mode has any execute bit (owner, group or other).
pub open spec fn mode_executable(mode: u32) -> bool {
    (mode / 64) % 2 == 1 || (mode / 8) % 2 == 1 || mode % 2 == 1
}

/// Whether a binary with this mode can be run.
pub fn is_executable_mode(mode: u32) -> (r: bool)
    ensures
        r == mode_executable(mode),
{
    let r = mode & 0o111u32 != 0;
    assert(r == mode_executable(mode)) by (bit_vector)
        requires
            r == (mode & 0o111u32 != 0),
    ;
    r
}

/// `Path::extension` of a file name: after the last `.`, when the name has a
/// dot that is not its first character.
pub open spec fn extension_of(name: Seq<char>) -> Option<Seq<char>> {
    match rsplit_once_char(name, '.') {
        Some((stem, ext)) => if stem.len() == 0 {
            None
        } else {
            Some(ext)
        },
        None => None,
    }
}

/// Whether a directory entry is a model file (`.gguf` extension).
pub fn is_gguf_name(name: &str) -> (r: bool)
    ensures
        r == (extension_of(name@) == Some("gguf"@)),
{
    proof {
        reveal_strlit("gguf");
    }
    match rsplit_once_char_chars(&chars_of(name), '.') {
        Some((stem, ext)) => stem.len() > 0 && str_eq(string_from(&ext).as_str(), "gguf"),
        None => false,
    }
}

/// The file name in a model URL: the last path segment without any query or
/// fragment.
pub open spec fn url_file_name(url: Seq<char>) -> Seq<char> {
    let last = after_last(url, '/');
    let q = char_pos(last, '?');
    let h = char_pos(last, '#');
    let cut = if q < h {
        q
    } else {
        h
    };
    last.take(if cut < last.len() {
        cut as int
    } else {
        last.len() as int
    })
}

/// The name a downloaded model is saved under, or why the URL is refused.
pub open spec fn model_name_of(url: Seq<char>) -> Result<Seq<char>, Seq<char>> {
    let name = url_file_name(url);
    if name.len() == 0 {
        Err("could not derive a filename from the URL"@)
    } else if !ends_with(lowercase(name), ".gguf"@) {
        Err("URL must point to a .gguf file"@)
    } else {
        Ok(name)
    }
}

/// The file name to save a model download under.
pub fn model_file_name(url: &str) -> (r: Result<String, String>)
    ensures
        match r {
            Ok(n) => model_name_of(url@) == Ok::<Seq<char>, Seq<char>>(n@),
            Err(e) => model_name_of(url@) == Err::<Seq<char>, Seq<char>>(e@),
        },
{
    let last = after_last_chars(&chars_of(url), '/');
    proof {
        assert(last@.skip(0) =~= last@);
    }
    let q = crate::text::char_pos_from(&last, '?', 0);
    let h = crate::text::char_pos_from(&last, '#', 0);
    let cut = if q < h {
        q
    } else {
        h
    };
    let end = if cut < last.len() {
        cut
    } else {
        last.len()
    };
    let name = slice_of(&last, 0, end);
    proof {
        assert(name@ =~= url_file_name(url@));
    }
    if name.len() == 0 {
        return Err(string_from(&chars_of("could not derive a filename from the URL")));
    }
    if !ends_with_str(&to_lowercase(&name), ".gguf") {
        return Err(string_from(&chars_of("URL must point to a .gguf file")));
    }
    Ok(string_from(&name))
}

/// Where downloaded models live under the app data directory.
pub fn models_dir_under(data: &str) -> (r: String)
    ensures
        r@ == joined(data@, "models"@),
{
    crate::paths::join_path(data, "models")
}

/// Where downloaded GGUF models live; `None` when there is no data directory.
pub fn models_dir() -> (r: Option<String>)
    ensures
        r matches Some(d) ==> exists|b: Seq<char>| d@ == joined(b, "models"@),
{
    match crate::paths::data_dir() {
        Some(d) => Some(models_dir_under(d.as_str())),
        None => None,
    }
}

/// The downloaded models among a directory listing `(file name, size)`, in
/// listing order.
pub open spec fn gguf_entries(entries: Seq<(Seq<char>, u64)>) -> Seq<(Seq<char>, u64)> {
    entries.filter(|e: (Seq<char>, u64)| extension_of(e.0) == Some("gguf"@))
}

/// Downloaded GGUF models as `(file name, size)` from a listing of the models
/// directory.
pub fn installed_models_in(entries: &[(String, u64)]) -> (r: Vec<(String, u64)>)
    ensures
        r@.map_values(|e: (String, u64)| (e.0@, e.1)) == gguf_entries(
            entries@.map_values(|e: (String, u64)| (e.0@, e.1)),
        ),
{
    let ghost ev = entries@.map_values(|e: (String, u64)| (e.0@, e.1));
    let mut out: Vec<(String, u64)> = Vec::new();
    let mut k: usize = 0;
    proof {
        assert(ev.take(0) =~= Seq::<(Seq<char>, u64)>::empty());
        reveal(Seq::filter);
        assert(gguf_entries(ev.take(0)) =~= Seq::<(Seq<char>, u64)>::empty());
        assert(out@.map_values(|e: (String, u64)| (e.0@, e.1)) =~= Seq::<(Seq<char>, u64)>::empty());
    }
    while k < entries.len()
        invariant
            k <= entries@.len(),
            ev == entries@.map_values(|e: (String, u64)| (e.0@, e.1)),
            out@.map_values(|e: (String, u64)| (e.0@, e.1)) == gguf_entries(ev.take(k as int)),
        decreases entries.len() - k,
    {
        proof {
            reveal(Seq::filter);
            assert(ev.take(k + 1).drop_last() =~= ev.take(k as int));
            assert(ev.take(k + 1).last() == ev[k as int]);
        }
        let ghost before = out@.map_values(|e: (String, u64)| (e.0@, e.1));
        if is_gguf_name(entries[k].0.as_str()) {
            let e = (entries[k].0.clone(), entries[k].1);
            out.push(e);
            proof {
                assert(out@.map_values(|e: (String, u64)| (e.0@, e.1)) =~= before.push(ev[k as int]));
            }
        }
        k = k + 1;
    }
    proof {
        assert(ev.take(entries@.len() as int) =~= ev);
    }
    out
}

/// Where a bundled `llama-server` is unpacked under the app data directory.
pub fn bundled_server_path(data: &str) -> (r: String)
    ensures
        r@ == joined(joined(data@, "bin"@), "llama-server"@),
{
    let bin = crate::paths::join_path(data, "bin");
    crate::paths::join_path(bin.as_str(), "llama-server")
}

/// Which `llama-server` to run: the configured path when it names a file,
/// else the unpacked bundled one when present, else the one found on `PATH`.
pub fn server_binary_choice(
    configured: &str,
    configured_is_file: bool,
    bundled: Option<String>,
    bundled_is_file: bool,
    on_path: Option<String>,
) -> (r: Option<String>)
    ensures
        crate::model::opt_view(r) == if crate::text::trim(configured@).len() > 0 && configured_is_file {
            Some(crate::text::trim(configured@))
        } else if bundled is Some && bundled_is_file {
            crate::model::opt_view(bundled)
        } else {
            crate::model::opt_view(on_path)
        },
{
    let c = crate::text::trim_chars(&chars_of(configured));
    if c.len() > 0 && configured_is_file {
        return Some(string_from(&c));
    }
    match bundled {
        Some(b) => if bundled_is_file {
            return Some(b);
        },
        None => {},
    }
    on_path
}

/// The configured GGUF model when it names an existing file.
pub fn model_path_choice(configured: &str, is_file: bool) -> (r: Option<String>)
    ensures
        crate::model::opt_view(r) == if crate::text::trim(configured@).len() > 0 && is_file {
            Some(crate::text::trim(configured@))
        } else {
            None
        },
{
    let c = crate::text::trim_chars(&chars_of(configured));
    if c.len() > 0 && is_file {
        Some(string_from(&c))
    } else {
        None
    }
}

} // verus!
