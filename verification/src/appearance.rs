//! Desktop appearance: chrome colours read out of KDE's `kdeglobals`, merged
//! with what the desktop portal reports. Talking to the portal (and its
//! floating-point accent) is the caller's part.
use vstd::prelude::*;

use crate::text::{
    chars_of, ends_with, ends_with_str, lines, lines_of, parse_nat, parse_nat_chars, slice_of,
    split, split_chars, split_once, split_once_chars, starts_with, starts_with_str, str_eq,
    string_from, trim, trim_chars, views,
};

verus! {

/// An 8-bit sRGB colour.
#[derive(Debug, Clone, Copy, PartialEq, Eq, Structural)]
pub struct Rgb {
    pub r: u8,
    pub g: u8,
    pub b: u8,
}

/// The desktop's current appearance, as far as it can be read.
#[derive(Debug, Clone)]
pub struct Appearance {
    /// "dark" | "light", or `None` for "no preference".
    pub color_scheme: Option<String>,
    /// System accent colour.
    pub accent: Option<Rgb>,
    /// Desktop window background (chrome).
    pub window_bg: Option<Rgb>,
    /// Desktop window text colour.
    pub window_fg: Option<Rgb>,
    /// Desktop "view"/content background (lists, panes).
    pub base_bg: Option<Rgb>,
}

/// Colours read out of KDE's `kdeglobals`.
#[derive(Debug, Clone, Copy, PartialEq, Eq, Structural)]
pub struct KdeColors {
    pub accent: Option<Rgb>,
    pub window_bg: Option<Rgb>,
    pub window_fg: Option<Rgb>,
    pub base_bg: Option<Rgb>,
}

impl Default for KdeColors {
    fn default() -> (r: Self)
        ensures
            r == (KdeColors { accent: None, window_bg: None, window_fg: None, base_bg: None }),
    {
        KdeColors { accent: None, window_bg: None, window_fg: None, base_bg: None }
    }
}

/// `r, g, b`: three comma-separated 8-bit components (extra components are
/// ignored).
pub open spec fn rgb_of(s: Seq<char>) -> Option<Rgb> {
    let parts = split(s, ',');
    if parts.len() < 3 {
        None
    } else {
        match (
            parse_nat(trim(parts[0]), 255),
            parse_nat(trim(parts[1]), 255),
            parse_nat(trim(parts[2]), 255),
        ) {
            (Some(r), Some(g), Some(b)) => Some(Rgb { r: r as u8, g: g as u8, b: b as u8 }),
            _ => None,
        }
    }
}

pub fn parse_rgb_triplet(s: &str) -> (r: Option<Rgb>)
    ensures
        r == rgb_of(s@),
{
    let parts = split_chars(&chars_of(s), ',');
    if parts.len() < 3 {
        return None;
    }
    proof {
        assert(views(parts@)[0] == parts@[0]@);
        assert(views(parts@)[1] == parts@[1]@);
        assert(views(parts@)[2] == parts@[2]@);
    }
    let r = match parse_nat_chars(&trim_chars(&parts[0]), 255) {
        Some(v) => v,
        None => return None,
    };
    let g = match parse_nat_chars(&trim_chars(&parts[1]), 255) {
        Some(v) => v,
        None => return None,
    };
    let b = match parse_nat_chars(&trim_chars(&parts[2]), 255) {
        Some(v) => v,
        None => return None,
    };
    Some(Rgb { r: r as u8, g: g as u8, b: b as u8 })
}

/// One line of `kdeglobals`: a `[section]` header switches section; a
/// `key=value` line may set one of the colours.
pub open spec fn kde_step(st: (KdeColors, Seq<char>), raw: Seq<char>) -> (KdeColors, Seq<char>) {
    let out = st.0;
    let section = st.1;
    let line = trim(raw);
    if starts_with(line, "["@) && ends_with(line, "]"@) {
        (out, line.subrange(1, line.len() - 1))
    } else {
        match split_once(line, "="@) {
            None => st,
            Some((k, v)) => {
                let key = trim(k);
                let value = trim(v);
                if key == "AccentColor"@ {
                    (KdeColors { accent: rgb_of(value), ..out }, section)
                } else if section == "Colors:Window"@ && key == "BackgroundNormal"@ {
                    (KdeColors { window_bg: rgb_of(value), ..out }, section)
                } else if section == "Colors:Window"@ && key == "ForegroundNormal"@ {
                    (KdeColors { window_fg: rgb_of(value), ..out }, section)
                } else if section == "Colors:View"@ && key == "BackgroundNormal"@ {
                    (KdeColors { base_bg: rgb_of(value), ..out }, section)
                } else {
                    st
                }
            },
        }
    }
}

pub open spec fn kde_scan(ls: Seq<Seq<char>>) -> (KdeColors, Seq<char>)
    decreases ls.len(),
{
    if ls.len() == 0 {
        (KdeColors { accent: None, window_bg: None, window_fg: None, base_bg: None }, Seq::empty())
    } else {
        kde_step(kde_scan(ls.drop_last()), ls.last())
    }
}

/// Parse the relevant colour keys out of a `kdeglobals` INI body.
pub fn parse_kdeglobals(content: &str) -> (r: KdeColors)
    ensures
        r == kde_scan(lines(content@)).0,
{
    let ls = lines_of(&chars_of(content));
    let ghost lv = views(ls@);
    let mut out = KdeColors::default();
    let mut section: Vec<char> = Vec::new();
    let mut k: usize = 0;
    proof {
        assert(lv.take(0) =~= Seq::<Seq<char>>::empty());
    }
    while k < ls.len()
        invariant
            k <= ls@.len(),
            lv == views(ls@),
            (out, section@) == kde_scan(lv.take(k as int)),
        decreases ls.len() - k,
    {
        proof {
            assert(lv.take(k + 1).drop_last() =~= lv.take(k as int));
            assert(lv.take(k + 1).last() == ls@[k as int]@);
        }
        let line = trim_chars(&ls[k]);
        if starts_with_str(&line, "[") && ends_with_str(&line, "]") {
            proof {
                reveal_strlit("[");
                reveal_strlit("]");
                assert(line@.take(1)[0] == line@[0]);
                assert(line@[0] == '[');
                let n = line@.len();
                assert(line@.skip(n - 1)[0] == line@[n - 1]);
                assert(line@[n - 1] == ']');
                assert(n >= 2);
            }
            section = slice_of(&line, 1, line.len() - 1);
        } else {
            match split_once_chars(&line, &chars_of("=")) {
                None => {},
                Some((kk, vv)) => {
                    let key = string_from(&trim_chars(&kk));
                    let value = string_from(&trim_chars(&vv));
                    let sec = string_from(&section);
                    if str_eq(key.as_str(), "AccentColor") {
                        out.accent = parse_rgb_triplet(value.as_str());
                    } else if str_eq(sec.as_str(), "Colors:Window") && str_eq(
                        key.as_str(),
                        "BackgroundNormal",
                    ) {
                        out.window_bg = parse_rgb_triplet(value.as_str());
                    } else if str_eq(sec.as_str(), "Colors:Window") && str_eq(
                        key.as_str(),
                        "ForegroundNormal",
                    ) {
                        out.window_fg = parse_rgb_triplet(value.as_str());
                    } else if str_eq(sec.as_str(), "Colors:View") && str_eq(
                        key.as_str(),
                        "BackgroundNormal",
                    ) {
                        out.base_bg = parse_rgb_triplet(value.as_str());
                    }
                },
            }
        }
        k = k + 1;
    }
    proof {
        assert(lv.take(ls@.len() as int) =~= lv);
    }
    out
}

/// The colour-scheme preference from the portal's `color-scheme` value
/// (1 = prefer dark, 2 = prefer light, anything else = no preference).
pub fn color_scheme_name(value: Option<u32>) -> (r: Option<String>)
    ensures
        match value {
            Some(1) => r matches Some(s) && s@ == "dark"@,
            Some(2) => r matches Some(s) && s@ == "light"@,
            _ => r is None,
        },
{
    match value {
        Some(1) => Some(string_from(&chars_of("dark"))),
        Some(2) => Some(string_from(&chars_of("light"))),
        _ => None,
    }
}

/// The appearance from the portal's colour scheme and accent merged with the
/// `kdeglobals` colours: KDE's exact accent wins over the portal's.
pub fn merge_appearance(color_scheme: Option<String>, portal_accent: Option<Rgb>, kde: KdeColors) -> (r:
    Appearance)
    ensures
        r.color_scheme == color_scheme,
        r.accent == match kde.accent {
            Some(a) => Some(a),
            None => portal_accent,
        },
        r.window_bg == kde.window_bg,
        r.window_fg == kde.window_fg,
        r.base_bg == kde.base_bg,
{
    Appearance {
        color_scheme,
        accent: match kde.accent {
            Some(a) => Some(a),
            None => portal_accent,
        },
        window_bg: kde.window_bg,
        window_fg: kde.window_fg,
        base_bg: kde.base_bg,
    }
}

/// The portal-less appearance: `kdeglobals` colours alone, no scheme.
pub fn kdeglobals_appearance(kde: KdeColors) -> (r: Appearance)
    ensures
        r.color_scheme is None,
        r.accent == kde.accent,
        r.window_bg == kde.window_bg,
        r.window_fg == kde.window_fg,
        r.base_bg == kde.base_bg,
{
    merge_appearance(None, None, kde)
}

} // verus!
