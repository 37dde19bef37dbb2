//! What the system tray shows: the attention summary line, the menu rows,
//! the recent-repos quick-open list, and the glyph pixmaps decoded from PNG.
//! Badging the icon and speaking the StatusNotifierItem protocol are the
//! caller's part.
use vstd::prelude::*;

use crate::model::Repo;
use crate::text::{chars_of, dec, dec_chars, push_all, push_str, string_from};

verus! {

/// Cap on recent repos shown, to keep the menu compact.
pub const MAX_RECENT: usize = 5;

/// A tray menu activation, handed to the app to act on.
#[derive(Debug, Clone, PartialEq, Eq)]
pub enum TrayAction {
    /// Show / raise the main window.
    Show,
    /// Re-scan the repos.
    Rescan,
    /// Quit the application.
    Quit,
    /// Open a repo (by id / path) in the configured IDE.
    Open(String),
}

/// Compact attention-model summary for the tray: counts of the actionable
/// items (Urgent + Attention) and the top item lines.
#[derive(Clone, Debug)]
pub struct TrayAttention {
    /// Actionable items (Urgent + Attention severities).
    pub total: usize,
    /// Urgent subset: drives the needs-attention icon state.
    pub urgent: usize,
    /// Top item lines, already ranked.
    pub top: Vec<String>,
}

impl Default for TrayAttention {
    fn default() -> (r: Self)
        ensures
            r.total == 0 && r.urgent == 0 && r.top@.len() == 0,
    {
        TrayAttention { total: 0, urgent: 0, top: Vec::new() }
    }
}

/// "needs" / "need": the attention verb for a count.
pub open spec fn need_of(n: nat) -> Seq<char> {
    if n == 1 {
        "needs"@
    } else {
        "need"@
    }
}

pub fn need(n: usize) -> (r: &'static str)
    ensures
        r@ == need_of(n as nat),
{
    if n == 1 {
        "needs"
    } else {
        "need"
    }
}

/// One-line readout of the attention counts, `None` when all clear.
pub open spec fn attention_line_of(total: nat, urgent: nat) -> Option<Seq<char>> {
    if total == 0 {
        None
    } else if urgent == 0 {
        Some(dec(total) + " "@ + need_of(total) + " attention"@)
    } else {
        Some(dec(total) + " "@ + need_of(total) + " attention · "@ + dec(urgent) + " urgent"@)
    }
}

pub fn attention_line(a: &TrayAttention) -> (r: Option<String>)
    ensures
        match r {
            Some(s) => attention_line_of(a.total as nat, a.urgent as nat) == Some(s@),
            None => attention_line_of(a.total as nat, a.urgent as nat) is None,
        },
{
    if a.total == 0 {
        return None;
    }
    let mut v = dec_chars(a.total as u64);
    push_str(&mut v, " ");
    push_str(&mut v, need(a.total));
    if a.urgent == 0 {
        push_str(&mut v, " attention");
    } else {
        push_str(&mut v, " attention · ");
        push_all(&mut v, &dec_chars(a.urgent as u64));
        push_str(&mut v, " urgent");
    }
    Some(string_from(&v))
}

/// The menu header: the attention line, or "All clear".
pub fn header_line(a: &TrayAttention) -> (r: String)
    ensures
        r@ == match attention_line_of(a.total as nat, a.urgent as nat) {
            Some(s) => s,
            None => "All clear"@,
        },
{
    match attention_line(a) {
        Some(s) => s,
        None => string_from(&chars_of("All clear")),
    }
}

/// Whether the tray reports needs-attention (anything urgent pending).
pub fn needs_attention(a: &TrayAttention) -> (r: bool)
    ensures
        r == (a.urgent > 0),
{
    a.urgent > 0
}

/// A top-item menu row.
pub fn top_item_label(line: &str) -> (r: String)
    ensures
        r@ == "● "@ + line@,
{
    let mut v = chars_of("● ");
    push_str(&mut v, line);
    string_from(&v)
}

/// A recent-repo menu row.
pub fn recent_label(name: &str) -> (r: String)
    ensures
        r@ == "  "@ + name@,
{
    let mut v = chars_of("  ");
    push_str(&mut v, name);
    string_from(&v)
}

/// Where a repo last committed at `t` goes in a most-recent-first list:
/// before the first one (at or after `j`) that committed earlier.
pub open spec fn recent_pos(s: Seq<(i64, Seq<char>, Seq<char>)>, t: i64, j: int) -> int
    decreases s.len() - j,
{
    if j < 0 || j >= s.len() {
        s.len() as int
    } else if s[j].0 < t {
        j
    } else {
        recent_pos(s, t, j + 1)
    }
}

/// (last commit, id, name) of each repo, most recent first (stable).
pub open spec fn by_recency(v: Seq<(i64, Seq<char>, Seq<char>)>) -> Seq<(i64, Seq<char>, Seq<char>)>
    decreases v.len(),
{
    if v.len() == 0 {
        Seq::empty()
    } else {
        let r = by_recency(v.drop_last());
        r.insert(recent_pos(r, v.last().0, 0), v.last())
    }
}

/// (last commit, id, display name) of each repo.
pub open spec fn recency_facts(repos: Seq<Repo>) -> Seq<(i64, Seq<char>, Seq<char>)> {
    repos.map_values(|r: Repo| (r.last_commit_unix, r.id@, r.display_name@))
}

/// The quick-open list: (id, display name) of the most recently active repos
/// (by last commit), at most `MAX_RECENT`.
pub open spec fn recent_of(repos: Seq<Repo>) -> Seq<(Seq<char>, Seq<char>)> {
    let s = by_recency(recency_facts(repos));
    let kept = if s.len() > MAX_RECENT {
        s.take(MAX_RECENT as int)
    } else {
        s
    };
    kept.map_values(|f: (i64, Seq<char>, Seq<char>)| (f.1, f.2))
}

proof fn lemma_recent_pos(s: Seq<(i64, Seq<char>, Seq<char>)>, t: i64, j: int)
    requires
        0 <= j <= s.len(),
    ensures
        j <= recent_pos(s, t, j) <= s.len(),
    decreases s.len() - j,
{
    if j < s.len() && s[j].0 >= t {
        lemma_recent_pos(s, t, j + 1);
    }
}

pub open spec fn fact_views(v: Seq<(i64, String, String)>) -> Seq<(i64, Seq<char>, Seq<char>)> {
    v.map_values(|f: (i64, String, String)| (f.0, f.1@, f.2@))
}

/// (id, display name) of the most recently active repos, for the quick-open list.
pub fn recent_repos(repos: &[Repo]) -> (r: Vec<(String, String)>)
    ensures
        r@.len() <= MAX_RECENT,
        r@.map_values(|p: (String, String)| (p.0@, p.1@)) == recent_of(repos@),
{
    let ghost facts = recency_facts(repos@);
    let mut sorted: Vec<(i64, String, String)> = Vec::new();
    let mut k: usize = 0;
    proof {
        assert(facts.take(0) =~= Seq::<(i64, Seq<char>, Seq<char>)>::empty());
        assert(fact_views(sorted@) =~= Seq::<(i64, Seq<char>, Seq<char>)>::empty());
    }
    while k < repos.len()
        invariant
            k <= repos@.len(),
            facts == recency_facts(repos@),
            fact_views(sorted@) == by_recency(facts.take(k as int)),
            sorted@.len() == k,
        decreases repos.len() - k,
    {
        proof {
            assert(facts.take(k + 1).drop_last() =~= facts.take(k as int));
            assert(facts.take(k + 1).last() == facts[k as int]);
        }
        let t = repos[k].last_commit_unix;
        let x = (t, repos[k].id.clone(), repos[k].display_name.clone());
        let ghost sv = fact_views(sorted@);
        let mut p: usize = 0;
        while p < sorted.len() && sorted[p].0 >= t
            invariant
                p <= sorted@.len(),
                sv == fact_views(sorted@),
                recent_pos(sv, t, p as int) == recent_pos(sv, t, 0),
            decreases sorted.len() - p,
        {
            p = p + 1;
        }
        proof {
            lemma_recent_pos(sv, t, 0);
        }
        sorted.insert(p, x);
        proof {
            assert(fact_views(sorted@) =~= sv.insert(p as int, (x.0, x.1@, x.2@)));
        }
        k = k + 1;
    }
    proof {
        assert(facts.take(repos@.len() as int) =~= facts);
    }
    let ghost all = fact_views(sorted@);
    let mut out: Vec<(String, String)> = Vec::new();
    let n: usize = if sorted.len() > MAX_RECENT {
        MAX_RECENT
    } else {
        sorted.len()
    };
    let mut m: usize = 0;
    while m < n
        invariant
            m <= n <= sorted@.len(),
            n <= MAX_RECENT,
            all == fact_views(sorted@),
            out@.len() == m,
            forall|i: int| 0 <= i < m ==> (#[trigger] out@[i]).0@ == all[i].1 && out@[i].1@ == all[i].2,
        decreases n - m,
    {
        out.push((sorted[m].1.clone(), sorted[m].2.clone()));
        m = m + 1;
    }
    proof {
        let kept = if all.len() > MAX_RECENT {
            all.take(MAX_RECENT as int)
        } else {
            all
        };
        assert(out@.map_values(|p: (String, String)| (p.0@, p.1@)) =~= kept.map_values(
            |f: (i64, Seq<char>, Seq<char>)| (f.1, f.2),
        ));
    }
    out
}


// ───────────────────────────── tray glyphs ─────────────────────────────

/// What `png` decodes out of a PNG file's first frame: width, height, the
/// number of channels of its colour type (4 for RGBA, 3 for RGB, 0 for any
/// other colour type), and the frame's pixel bytes.
pub uninterp spec fn png_frame(bytes: Seq<u8>) -> Option<(u32, u32, u8, Seq<u8>)>;

/// Decode the first frame of a PNG with `png::Decoder` (`read_info`, then
/// `next_frame` into a buffer of `output_buffer_size` bytes, cut to the
/// frame's `buffer_size`). Its result is named `png_frame` of the bytes;
/// nothing more is claimed of the decoder.
#[verifier::external_body]
fn decode_png_frame(bytes: &[u8]) -> (r: Option<(u32, u32, u8, Vec<u8>)>)
    ensures
        match r {
            Some((w, h, ch, px)) => png_frame(bytes@) == Some((w, h, ch, px@)),
            None => png_frame(bytes@) is None,
        },
{
    let mut reader = png::Decoder::new(std::io::Cursor::new(bytes)).read_info().ok()?;
    let mut buf = vec![0; reader.output_buffer_size()];
    let info = reader.next_frame(&mut buf).ok()?;
    buf.truncate(info.buffer_size());
    let channels: u8 = match info.color_type {
        png::ColorType::Rgba => 4,
        png::ColorType::Rgb => 3,
        _ => 0,
    };
    Some((info.width, info.height, channels, buf))
}

/// The ARGB32 pixels (bytes A, R, G, B per pixel) of RGBA or RGB pixel
/// bytes (`channels` 4 or 3; RGB pixels are opaque); trailing bytes short
/// of a whole pixel are dropped. `None` for any other channel count.
pub open spec fn argb_pixels(channels: u8, px: Seq<u8>) -> Option<Seq<u8>> {
    if channels == 4 {
        Some(Seq::new(((px.len() / 4) * 4) as nat, |j: int| if j % 4 == 0 {
            px[j + 3]
        } else {
            px[j - 1]
        }))
    } else if channels == 3 {
        Some(Seq::new(((px.len() / 3) * 4) as nat, |j: int| if j % 4 == 0 {
            255u8
        } else {
            px[(j / 4) * 3 + j % 4 - 1]
        }))
    } else {
        None
    }
}

/// Reorder RGBA or RGB pixel bytes into ARGB32.
pub fn argb_from(channels: u8, px: &[u8]) -> (r: Option<Vec<u8>>)
    ensures
        match r {
            Some(d) => argb_pixels(channels, px@) == Some(d@),
            None => argb_pixels(channels, px@) is None,
        },
{
    if channels != 4 && channels != 3 {
        return None;
    }
    let step: usize = if channels == 4 { 4 } else { 3 };
    let len: usize = px.len();
    let n: usize = len / step;
    let ghost target = argb_pixels(channels, px@)->0;
    let mut out: Vec<u8> = Vec::new();
    let mut i: usize = 0;
    assert(n * step <= px@.len()) by (nonlinear_arith)
        requires
            n == px@.len() / (step as nat),
            step == 3 || step == 4,
    ;
    while i < n
        invariant
            channels == 4 || channels == 3,
            step == (if channels == 4 { 4usize } else { 3usize }),
            n == px@.len() / (step as nat),
            n * step <= px@.len(),
            len == px@.len(),
            i <= n,
            target == argb_pixels(channels, px@)->0,
            target.len() == n * 4,
            out@.len() == i * 4,
            forall|j: int| 0 <= j < out@.len() ==> out@[j] == target[j],
        decreases n - i,
    {
        assert(i * step + step <= len) by (nonlinear_arith)
            requires
                i < n,
                n * step <= len,
                step > 0,
        ;
        let b: usize = i * step;
        let (a, r, g, bl) = if channels == 4 {
            (px[b + 3], px[b], px[b + 1], px[b + 2])
        } else {
            (255u8, px[b], px[b + 1], px[b + 2])
        };
        let ghost old_out = out@;
        out.push(a);
        out.push(r);
        out.push(g);
        out.push(bl);
        proof {
            assert forall|j: int| 0 <= j < out@.len() implies out@[j] == target[j] by {
                if j >= old_out.len() {
                    let o = j - i * 4;
                    assert(0 <= o < 4);
                    assert(j / 4 == i as int && j % 4 == o) by (nonlinear_arith)
                        requires
                            j == i * 4 + o,
                            0 <= o < 4,
                    ;
                    if channels == 4 {
                        assert(j == b + o) by (nonlinear_arith)
                            requires
                                j == i * 4 + o,
                                b == i * 4,
                        ;
                    } else {
                        assert((j / 4) * 3 == b) by (nonlinear_arith)
                            requires
                                j / 4 == i,
                                b == i * 3,
                        ;
                    }
                }
            }
        }
        i = i + 1;
    }
    proof {
        assert(out@ =~= target);
    }
    Some(out)
}

/// A tray glyph from PNG bytes: width, height and ARGB32 pixels, or `None`
/// when the file does not decode or is neither RGBA nor RGB.
pub fn decode_argb(png_bytes: &[u8]) -> (r: Option<(i32, i32, Vec<u8>)>)
    ensures
        match png_frame(png_bytes@) {
            Some((w, h, ch, px)) => match argb_pixels(ch, px) {
                Some(d) => r matches Some((rw, rh, rd)) && rw == w as i32 && rh == h as i32 && rd@ == d,
                None => r is None,
            },
            None => r is None,
        },
{
    let (w, h, ch, px) = match decode_png_frame(png_bytes) {
        Some(f) => f,
        None => return None,
    };
    match argb_from(ch, &px) {
        Some(d) => Some((w as i32, h as i32, d)),
        None => None,
    }
}

} // verus!
