//! Corpus building for semantic fleet recall: each repo's identity in the
//! embedding store, its per-source texts, embedding-sized chunks, and which
//! sources changed since the last indexing pass. Vectors, similarity and
//! ranking are floating point and live with the caller.
use vstd::prelude::*;

use std::hash::{Hash, Hasher};

use crate::model::{opt_view, Repo};
use crate::text::{
    chars_of, clamp, clamp_chars, is_blank_chars, is_whitespace, is_ws, join, lemma_views_push,
    lemma_ws_prefix_bound, lines, lines_of, push_all, push_str, slice_of, starts_with,
    starts_with_chars, str_views, string_from, trim, trim_chars, trim_end, trim_end_chars,
    trim_start, trim_start_chars, utf8_len, views,
};

verus! {

pub const SOURCE_README: &'static str = "readme";
pub const SOURCE_DESCRIPTION: &'static str = "description";
pub const SOURCE_TOPICS: &'static str = "topics";
pub const SOURCE_NOTES: &'static str = "notes";
pub const SOURCE_COMMITS: &'static str = "commits";

/// Chunk packing target, in characters.
pub const CHUNK_TARGET_CHARS: usize = 1200;
/// Hard cap on a chunk, in characters.
pub const CHUNK_MAX_CHARS: usize = 1800;
/// Chunks kept per source.
pub const MAX_CHUNKS_PER_SOURCE: usize = 12;
/// Cap on readme text fed to chunking, in characters.
pub const README_MAX_CHARS: usize = 24000;
/// Recent commit subjects in the `commits` source.
pub const COMMIT_SUBJECTS: usize = 30;

// ───────────────────────────── blocks ─────────────────────────────

/// One line of block splitting: a blank line ends the block being built; a
/// heading starts a new one; other lines join the current block.
pub open spec fn block_step(st: (Seq<Seq<char>>, Seq<char>), raw: Seq<char>) -> (
    Seq<Seq<char>>,
    Seq<char>,
) {
    let blocks = st.0;
    let cur = st.1;
    let line = trim_end(raw);
    if trim(line).len() == 0 {
        (
            if trim(cur).len() > 0 {
                blocks.push(cur)
            } else {
                blocks
            },
            Seq::empty(),
        )
    } else {
        let split = starts_with(line, seq!['#']) && trim(cur).len() > 0;
        let b2 = if split {
            blocks.push(cur)
        } else {
            blocks
        };
        let c2 = if split {
            Seq::<char>::empty()
        } else {
            cur
        };
        (
            b2,
            if c2.len() > 0 {
                c2.push('\n') + line
            } else {
                line
            },
        )
    }
}

pub open spec fn block_scan(ls: Seq<Seq<char>>) -> (Seq<Seq<char>>, Seq<char>)
    decreases ls.len(),
{
    if ls.len() == 0 {
        (Seq::empty(), Seq::empty())
    } else {
        block_step(block_scan(ls.drop_last()), ls.last())
    }
}

/// The blocks of `text`: runs of lines between blank lines, a heading opening
/// a new block.
pub open spec fn blocks_of(text: Seq<char>) -> Seq<Seq<char>> {
    let st = block_scan(lines(text));
    if trim(st.1).len() > 0 {
        st.0.push(st.1)
    } else {
        st.0
    }
}

fn blocks_exec(text: &[char]) -> (r: Vec<Vec<char>>)
    ensures
        views(r@) == blocks_of(text@),
{
    let ls = lines_of(text);
    let ghost lv = views(ls@);
    let mut blocks: Vec<Vec<char>> = Vec::new();
    let mut cur: Vec<char> = Vec::new();
    let mut k: usize = 0;
    proof {
        assert(lv.take(0) =~= Seq::<Seq<char>>::empty());
        assert(views(blocks@) =~= Seq::<Seq<char>>::empty());
    }
    while k < ls.len()
        invariant
            k <= ls@.len(),
            lv == views(ls@),
            (views(blocks@), cur@) == block_scan(lv.take(k as int)),
        decreases ls.len() - k,
    {
        proof {
            assert(lv.take(k + 1).drop_last() =~= lv.take(k as int));
            assert(lv.take(k + 1).last() == ls@[k as int]@);
        }
        let line = trim_end_chars(&ls[k]);
        let hash = chars_of("#");
        proof {
            reveal_strlit("#");
            assert(hash@ =~= seq!['#']);
        }
        if is_blank_chars(&line) {
            if !is_blank_chars(&cur) {
                proof {
                    lemma_views_push(blocks@, cur);
                }
                blocks.push(cur);
            }
            cur = Vec::new();
        } else {
            if starts_with_chars(&line, &hash) && !is_blank_chars(&cur) {
                proof {
                    lemma_views_push(blocks@, cur);
                }
                blocks.push(cur);
                cur = Vec::new();
            }
            if cur.len() > 0 {
                cur.push('\n');
            }
            push_all(&mut cur, &line);
        }
        k = k + 1;
    }
    proof {
        assert(lv.take(ls@.len() as int) =~= lv);
    }
    if !is_blank_chars(&cur) {
        proof {
            lemma_views_push(blocks@, cur);
        }
        blocks.push(cur);
    }
    blocks
}

// ───────────────────────────── hard splits ─────────────────────────────

/// Index of the last whitespace character.
pub open spec fn last_ws(s: Seq<char>) -> Option<int>
    decreases s.len(),
{
    if s.len() == 0 {
        None
    } else if is_ws(s.last()) {
        Some(s.len() - 1)
    } else {
        last_ws(s.drop_last())
    }
}

/// Where an oversized piece is cut: at its last whitespace within the cap when
/// that lies past half the cap (in bytes), else at the cap.
pub open spec fn split_cut(rest: Seq<char>) -> int {
    let head = rest.take(CHUNK_MAX_CHARS as int);
    match last_ws(head) {
        Some(j) => if j > 0 && utf8_len(head.take(j)) > utf8_len(head) / 2 {
            j
        } else {
            CHUNK_MAX_CHARS as int
        },
        None => CHUNK_MAX_CHARS as int,
    }
}

pub proof fn lemma_last_ws(s: Seq<char>)
    ensures
        match last_ws(s) {
            Some(j) => 0 <= j < s.len(),
            None => true,
        },
    decreases s.len(),
{
    if s.len() > 0 && !is_ws(s.last()) {
        lemma_last_ws(s.drop_last());
    }
}

/// An oversized block split into trimmed pieces of at most the cap.
pub open spec fn hard_pieces(rest: Seq<char>) -> Seq<Seq<char>>
    decreases rest.len(),
{
    if rest.len() <= CHUNK_MAX_CHARS {
        if trim(rest).len() > 0 {
            seq![trim(rest)]
        } else {
            Seq::empty()
        }
    } else {
        let cut = split_cut(rest);
        proof {
            lemma_last_ws(rest.take(CHUNK_MAX_CHARS as int));
            lemma_ws_prefix_bound(rest.skip(cut));
        }
        let piece = trim(rest.take(cut));
        (if piece.len() > 0 {
            seq![piece]
        } else {
            Seq::empty()
        }) + hard_pieces(trim_start(rest.skip(cut)))
    }
}

fn utf8_prefix_len(s: &[char], n: usize) -> (r: usize)
    requires
        n <= s@.len(),
        n <= CHUNK_MAX_CHARS,
    ensures
        r == utf8_len(s@.take(n as int)),
        r <= 4 * n,
{
    let mut total: usize = 0;
    let mut k: usize = 0;
    while k < n
        invariant
            k <= n <= s@.len(),
            n <= CHUNK_MAX_CHARS,
            total == utf8_len(s@.take(k as int)),
            total <= 4 * k,
        decreases n - k,
    {
        proof {
            assert(s@.take(k + 1).drop_last() =~= s@.take(k as int));
            assert(s@.take(k + 1).last() == s@[k as int]);
        }
        let c = s[k] as u32;
        if c < 0x80 {
            total = total + 1;
        } else if c < 0x800 {
            total = total + 2;
        } else if c < 0x10000 {
            total = total + 3;
        } else {
            total = total + 4;
        }
        k = k + 1;
    }
    total
}

fn last_ws_exec(s: &[char]) -> (r: Option<usize>)
    ensures
        match r {
            Some(j) => last_ws(s@) == Some(j as int),
            None => last_ws(s@) is None,
        },
{
    let mut e: usize = s.len();
    proof {
        assert(s@.take(e as int) =~= s@);
    }
    while e > 0
        invariant
            e <= s@.len(),
            last_ws(s@.take(e as int)) == last_ws(s@),
        decreases e,
    {
        proof {
            assert(s@.take(e as int).drop_last() =~= s@.take(e - 1));
            assert(s@.take(e as int).last() == s@[e - 1]);
        }
        if is_whitespace(s[e - 1]) {
            return Some(e - 1);
        }
        e = e - 1;
    }
    None
}

/// Split an oversized block at whitespace near the cap (mid-word only when a
/// "word" exceeds half a chunk, e.g. minified text).
pub fn hard_split(block: &str) -> (r: Vec<String>)
    ensures
        str_views(r@) == hard_pieces(block@),
{
    let mut out: Vec<String> = Vec::new();
    let mut rest = chars_of(block);
    proof {
        assert(str_views(out@) + hard_pieces(rest@) =~= hard_pieces(block@));
    }
    while rest.len() > CHUNK_MAX_CHARS
        invariant
            str_views(out@) + hard_pieces(rest@) == hard_pieces(block@),
        decreases rest@.len(),
    {
        let ghost old_rest = rest@;
        let head = slice_of(&rest, 0, CHUNK_MAX_CHARS);
        proof {
            assert(head@ =~= rest@.take(CHUNK_MAX_CHARS as int));
        }
        let cap = utf8_prefix_len(&head, CHUNK_MAX_CHARS);
        proof {
            assert(head@.take(CHUNK_MAX_CHARS as int) =~= head@);
            lemma_last_ws(head@);
        }
        let cut: usize = match last_ws_exec(&head) {
            Some(j) => {
                if j > 0 && utf8_prefix_len(&head, j) > cap / 2 {
                    j
                } else {
                    CHUNK_MAX_CHARS
                }
            },
            None => CHUNK_MAX_CHARS,
        };
        proof {
            assert(cut == split_cut(old_rest));
        }
        let piece = trim_chars(&slice_of(&rest, 0, cut));
        proof {
            assert(rest@.subrange(0, cut as int) =~= rest@.take(cut as int));
        }
        if piece.len() > 0 {
            let p = string_from(&piece);
            proof {
                assert(str_views(out@.push(p)) =~= str_views(out@).push(p@));
            }
            out.push(p);
        }
        let n = rest.len();
        let tail = slice_of(&rest, cut, n);
        proof {
            assert(tail@ =~= old_rest.skip(cut as int));
        }
        rest = trim_start_chars(&tail);
        proof {
            lemma_ws_prefix_bound(tail@);
            if piece@.len() > 0 {
                assert(str_views(out@) + hard_pieces(rest@) =~= str_views(out@).drop_last() + (
                seq![piece@] + hard_pieces(rest@)));
            } else {
                assert(str_views(out@) + hard_pieces(rest@) =~= str_views(out@) + (
                Seq::<Seq<char>>::empty() + hard_pieces(rest@)));
            }
        }
    }
    let t = trim_chars(&rest);
    if t.len() > 0 {
        let p = string_from(&t);
        proof {
            assert(str_views(out@.push(p)) =~= str_views(out@).push(p@));
            assert(str_views(out@.push(p)) =~= str_views(out@) + seq![t@]);
        }
        out.push(p);
    } else {
        proof {
            assert(str_views(out@) + Seq::<Seq<char>>::empty() =~= str_views(out@));
        }
    }
    out
}


// ───────────────────────────── packing ─────────────────────────────

/// One block of packing: flush the current chunk when the block would push
/// it past the target; an oversized block is hard-split on its own; others
/// join the current chunk after a blank line.
pub open spec fn pack_step(st: (Seq<Seq<char>>, Seq<char>), block: Seq<char>) -> (
    Seq<Seq<char>>,
    Seq<char>,
) {
    let bl = block.len();
    let flush = st.1.len() > 0 && st.1.len() + bl > CHUNK_TARGET_CHARS;
    let ch1 = if flush {
        st.0.push(st.1)
    } else {
        st.0
    };
    let cur1 = if flush {
        Seq::<char>::empty()
    } else {
        st.1
    };
    if bl > CHUNK_MAX_CHARS {
        (
            (if cur1.len() > 0 {
                ch1.push(cur1)
            } else {
                ch1
            }) + hard_pieces(block),
            Seq::empty(),
        )
    } else {
        (
            ch1,
            if cur1.len() > 0 {
                cur1 + seq!['\n', '\n'] + block
            } else {
                block
            },
        )
    }
}

pub open spec fn pack_scan(blocks: Seq<Seq<char>>) -> (Seq<Seq<char>>, Seq<char>)
    decreases blocks.len(),
{
    if blocks.len() == 0 {
        (Seq::empty(), Seq::empty())
    } else {
        pack_step(pack_scan(blocks.drop_last()), blocks.last())
    }
}

/// The embedding chunks of `text`, at most `MAX_CHUNKS_PER_SOURCE` of them.
pub open spec fn chunks_of(text: Seq<char>) -> Seq<Seq<char>> {
    let st = pack_scan(blocks_of(text));
    let all = if st.1.len() > 0 {
        st.0.push(st.1)
    } else {
        st.0
    };
    if all.len() > MAX_CHUNKS_PER_SOURCE {
        all.take(MAX_CHUNKS_PER_SOURCE as int)
    } else {
        all
    }
}

/// Split `text` into embedding-sized chunks: headings and blank lines delimit
/// blocks, blocks pack greedily to about `CHUNK_TARGET_CHARS`, and a single
/// oversized block hard-splits at whitespace. Empty text gives no chunks.
pub fn chunk_text(text: &str) -> (r: Vec<String>)
    ensures
        str_views(r@) == chunks_of(text@),
{
    let blocks = blocks_exec(&chars_of(text));
    let ghost bv = views(blocks@);
    let mut chunks: Vec<String> = Vec::new();
    let mut cur: Vec<char> = Vec::new();
    let mut k: usize = 0;
    proof {
        assert(bv.take(0) =~= Seq::<Seq<char>>::empty());
        assert(str_views(chunks@) =~= Seq::<Seq<char>>::empty());
    }
    while k < blocks.len()
        invariant
            k <= blocks@.len(),
            bv == views(blocks@),
            (str_views(chunks@), cur@) == pack_scan(bv.take(k as int)),
        decreases blocks.len() - k,
    {
        proof {
            assert(bv.take(k + 1).drop_last() =~= bv.take(k as int));
            assert(bv.take(k + 1).last() == blocks@[k as int]@);
        }
        let block = &blocks[k];
        let bl = block.len();
        if cur.len() > 0 && (cur.len() > CHUNK_TARGET_CHARS || bl > CHUNK_TARGET_CHARS - cur.len()) {
            let c = string_from(&cur);
            proof {
                assert(str_views(chunks@.push(c)) =~= str_views(chunks@).push(cur@));
            }
            chunks.push(c);
            cur = Vec::new();
        }
        if bl > CHUNK_MAX_CHARS {
            if cur.len() > 0 {
                let c = string_from(&cur);
                proof {
                    assert(str_views(chunks@.push(c)) =~= str_views(chunks@).push(cur@));
                }
                chunks.push(c);
                cur = Vec::new();
            }
            let pieces = hard_split(string_from(block).as_str());
            let ghost before = str_views(chunks@);
            let mut m: usize = 0;
            while m < pieces.len()
                invariant
                    m <= pieces@.len(),
                    str_views(chunks@) == before + str_views(pieces@).take(m as int),
                decreases pieces.len() - m,
            {
                let pc = string_from(&chars_of(pieces[m].as_str()));
                proof {
                    assert(str_views(chunks@.push(pc)) =~= str_views(chunks@).push(pc@));
                    assert(str_views(pieces@).take(m + 1) =~= str_views(pieces@).take(m as int).push(
                        pieces@[m as int]@,
                    ));
                }
                chunks.push(pc);
                m = m + 1;
            }
            proof {
                assert(str_views(pieces@).take(pieces@.len() as int) =~= str_views(pieces@));
            }
        } else {
            if cur.len() > 0 {
                cur.push('\n');
                cur.push('\n');
            }
            push_all(&mut cur, block);
        }
        k = k + 1;
    }
    proof {
        assert(bv.take(blocks@.len() as int) =~= bv);
    }
    if cur.len() > 0 {
        let c = string_from(&cur);
        proof {
            assert(str_views(chunks@.push(c)) =~= str_views(chunks@).push(cur@));
        }
        chunks.push(c);
    }
    let ghost all = str_views(chunks@);
    chunks.truncate(MAX_CHUNKS_PER_SOURCE);
    proof {
        if all.len() > MAX_CHUNKS_PER_SOURCE {
            assert(str_views(chunks@) =~= all.take(MAX_CHUNKS_PER_SOURCE as int));
        }
    }
    chunks
}


/// Every piece is non-empty and at most `CHUNK_MAX_CHARS` long.
pub open spec fn bounded_pieces(ps: Seq<Seq<char>>) -> bool {
    forall|i: int| 0 <= i < ps.len() ==> 0 < (#[trigger] ps[i]).len() <= CHUNK_MAX_CHARS
}

proof fn lemma_trim_len(s: Seq<char>)
    ensures
        trim(s).len() <= s.len(),
{
    lemma_ws_prefix_bound(s);
    crate::text::lemma_ws_suffix_bound(trim_start(s));
}

proof fn lemma_hard_pieces_bounded(rest: Seq<char>)
    ensures
        bounded_pieces(hard_pieces(rest)),
    decreases rest.len(),
{
    if rest.len() <= CHUNK_MAX_CHARS {
        lemma_trim_len(rest);
    } else {
        let cut = split_cut(rest);
        lemma_last_ws(rest.take(CHUNK_MAX_CHARS as int));
        lemma_ws_prefix_bound(rest.skip(cut));
        lemma_trim_len(rest.take(cut));
        lemma_hard_pieces_bounded(trim_start(rest.skip(cut)));
        let piece = trim(rest.take(cut));
        let head: Seq<Seq<char>> = if piece.len() > 0 {
            seq![piece]
        } else {
            Seq::empty()
        };
        let tail = hard_pieces(trim_start(rest.skip(cut)));
        assert forall|i: int| 0 <= i < (head + tail).len() implies 0 < (#[trigger] (head
            + tail)[i]).len() <= CHUNK_MAX_CHARS by {
            if i >= head.len() {
                assert((head + tail)[i] == tail[i - head.len()]);
            }
        }
    }
}

proof fn lemma_pack_scan_bounded(blocks: Seq<Seq<char>>)
    ensures
        bounded_pieces(pack_scan(blocks).0),
        pack_scan(blocks).1.len() <= CHUNK_MAX_CHARS,
    decreases blocks.len(),
{
    if blocks.len() > 0 {
        lemma_pack_scan_bounded(blocks.drop_last());
        let st = pack_scan(blocks.drop_last());
        let block = blocks.last();
        let bl = block.len();
        let flush = st.1.len() > 0 && st.1.len() + bl > CHUNK_TARGET_CHARS;
        let ch1 = if flush {
            st.0.push(st.1)
        } else {
            st.0
        };
        let cur1 = if flush {
            Seq::<char>::empty()
        } else {
            st.1
        };
        assert(bounded_pieces(ch1));
        if bl > CHUNK_MAX_CHARS {
            let ch2 = if cur1.len() > 0 {
                ch1.push(cur1)
            } else {
                ch1
            };
            assert(bounded_pieces(ch2));
            lemma_hard_pieces_bounded(block);
            let hp = hard_pieces(block);
            assert forall|i: int| 0 <= i < (ch2 + hp).len() implies 0 < (#[trigger] (ch2
                + hp)[i]).len() <= CHUNK_MAX_CHARS by {
                if i >= ch2.len() {
                    assert((ch2 + hp)[i] == hp[i - ch2.len()]);
                } else {
                    assert((ch2 + hp)[i] == ch2[i]);
                }
            }
        }
    }
}

/// Every chunk of a text is non-empty and at most `CHUNK_MAX_CHARS`
/// characters, and a text gives at most `MAX_CHUNKS_PER_SOURCE` chunks.
pub proof fn law_chunks_bounded(text: Seq<char>)
    ensures
        bounded_pieces(chunks_of(text)),
        chunks_of(text).len() <= MAX_CHUNKS_PER_SOURCE,
{
    lemma_pack_scan_bounded(blocks_of(text));
    let st = pack_scan(blocks_of(text));
    let all = if st.1.len() > 0 {
        st.0.push(st.1)
    } else {
        st.0
    };
    assert(bounded_pieces(all));
    if all.len() > MAX_CHUNKS_PER_SOURCE {
        assert(bounded_pieces(all.take(MAX_CHUNKS_PER_SOURCE as int)));
    }
}

// ───────────────────────────── corpus ─────────────────────────────

/// A repo's key in the embedding store: (remote domain, slug) when it has a
/// remote, else (`""`, absolute path), which never collides with a slug pair.
pub open spec fn key_of(repo: Repo) -> (Seq<char>, Seq<char>) {
    match repo.slug {
        Some(slug) => (
            match repo.remote_host {
                Some(h) => h@,
                None => Seq::empty(),
            },
            slug@,
        ),
        None => (Seq::empty(), repo.id@),
    }
}

/// A repo's key in the embedding store.
pub fn repo_key(repo: &Repo) -> (r: (String, String))
    ensures
        (r.0@, r.1@) == key_of(*repo),
{
    match &repo.slug {
        Some(slug) => (
            match &repo.remote_host {
                Some(h) => h.clone(),
                None => String::new(),
            },
            slug.clone(),
        ),
        None => (String::new(), repo.id.clone()),
    }
}

/// Meta key holding the text signature for one (repo, source); unit
/// separators keep the joints collision-free.
pub open spec fn sig_key_of(host: Seq<char>, slug: Seq<char>, source: Seq<char>) -> Seq<char> {
    "embed_sig:"@ + host + seq!['\u{1f}'] + slug + seq!['\u{1f}'] + source
}

pub fn sig_key(host: &str, slug: &str, source: &str) -> (r: String)
    ensures
        r@ == sig_key_of(host@, slug@, source@),
{
    let mut v = chars_of("embed_sig:");
    push_str(&mut v, host);
    v.push('\u{1f}');
    push_str(&mut v, slug);
    v.push('\u{1f}');
    push_str(&mut v, source);
    string_from(&v)
}

/// The hex fingerprint std's `DefaultHasher` (fixed keys, as created by
/// `DefaultHasher::new`) gives the text.
pub uninterp spec fn signature_of(text: Seq<char>) -> Seq<char>;

/// `str::hash` into a fresh `DefaultHasher`, printed as lower-case hex: its
/// result is named `signature_of` of the text. The hasher's keys are fixed,
/// so the same text gives the same signature from run to run of one build.
#[verifier::external_body]
pub fn text_signature(text: &str) -> (r: String)
    ensures
        r@ == signature_of(text@),
{
    let mut h = std::collections::hash_map::DefaultHasher::new();
    text.hash(&mut h);
    format!("{:x}", h.finish())
}

/// Which sources need (re)embedding: `(source, text, new signature)` for each
/// whose signature differs from the stored one, except an empty source that
/// was never stored.
pub open spec fn source_changes(
    sources: Seq<(String, String)>,
    stored: Seq<Option<String>>,
) -> Seq<(Seq<char>, Seq<char>, Seq<char>)>
    decreases sources.len(),
{
    if sources.len() == 0 || stored.len() != sources.len() {
        Seq::empty()
    } else {
        let rest = source_changes(sources.drop_last(), stored.drop_last());
        let (source, text) = sources.last();
        let st = opt_view(stored.last());
        let sig = signature_of(text@);
        if trim(text@).len() == 0 && st is None {
            rest
        } else if st == Some(sig) {
            rest
        } else {
            rest.push((source@, text@, sig))
        }
    }
}

/// Whether source `i` needs (re)embedding: its stored signature differs from
/// its current text's signature, and it is not a blank text never stored.
pub open spec fn needs_embedding(sources: Seq<(String, String)>, stored: Seq<Option<String>>, i: int) -> bool {
    !(trim(sources[i].1@).len() == 0 && stored[i] is None) && opt_view(stored[i]) != Some(
        signature_of(sources[i].1@),
    )
}

/// Which sources are (re)embedded: exactly those whose stored signature
/// differs from their current text's signature (a stored signature that does
/// not match always lists the source), except a blank text that was never
/// stored. They are listed once each, in input order, each with its text and
/// the text's new signature; `idx` gives the source behind each entry.
pub proof fn law_changed_sources_exact(sources: Seq<(String, String)>, stored: Seq<Option<String>>) -> (idx:
    Seq<int>)
    requires
        stored.len() == sources.len(),
    ensures
        idx.len() == source_changes(sources, stored).len(),
        forall|j: int|
            0 <= j < idx.len() ==> 0 <= #[trigger] idx[j] < sources.len() && needs_embedding(sources, stored, idx[j])
                && source_changes(sources, stored)[j] == (
                sources[idx[j]].0@,
                sources[idx[j]].1@,
                signature_of(sources[idx[j]].1@),
            ),
        forall|j1: int, j2: int| 0 <= j1 < j2 < idx.len() ==> #[trigger] idx[j1] < #[trigger] idx[j2],
        forall|i: int| 0 <= i < sources.len() && needs_embedding(sources, stored, i) ==> #[trigger] idx.contains(i),
        forall|i: int|
            0 <= i < sources.len() && (#[trigger] stored[i] matches Some(x) && x@ != signature_of(sources[i].1@))
                ==> source_changes(sources, stored).contains(
                (sources[i].0@, sources[i].1@, signature_of(sources[i].1@)),
            ),
    decreases sources.len(),
{
    if sources.len() == 0 {
        return Seq::empty();
    }
    let ps = sources.drop_last();
    let pt = stored.drop_last();
    let pidx = law_changed_sources_exact(ps, pt);
    let n = sources.len() - 1;
    let out = source_changes(sources, stored);
    assert forall|i: int| 0 <= i < n implies #[trigger] needs_embedding(sources, stored, i) == needs_embedding(
        ps,
        pt,
        i,
    ) by {
        assert(ps[i] == sources[i] && pt[i] == stored[i]);
    }
    assert(sources[n] == sources.last() && stored[n] == stored.last());
    let idx = if needs_embedding(sources, stored, n) {
        pidx.push(n)
    } else {
        pidx
    };
    assert forall|j: int| 0 <= j < idx.len() implies 0 <= #[trigger] idx[j] < sources.len() && needs_embedding(
        sources,
        stored,
        idx[j],
    ) && out[j] == (sources[idx[j]].0@, sources[idx[j]].1@, signature_of(sources[idx[j]].1@)) by {
        if j < pidx.len() {
            assert(idx[j] == pidx[j]);
            assert(ps[pidx[j]] == sources[pidx[j]]);
        }
    }
    assert forall|i: int| 0 <= i < sources.len() && needs_embedding(sources, stored, i) implies #[trigger] idx.contains(
        i,
    ) by {
        if i < n {
            assert(pidx.contains(i));
            let j = choose|j: int| 0 <= j < pidx.len() && pidx[j] == i;
            assert(idx[j] == i);
        } else {
            assert(idx[idx.len() - 1] == n);
        }
    }
    assert forall|i: int|
        0 <= i < sources.len() && (#[trigger] stored[i] matches Some(x) && x@ != signature_of(sources[i].1@))
            implies out.contains((sources[i].0@, sources[i].1@, signature_of(sources[i].1@))) by {
        assert(needs_embedding(sources, stored, i));
        assert(idx.contains(i));
        let j = choose|j: int| 0 <= j < idx.len() && idx[j] == i;
        assert(out[j] == (sources[i].0@, sources[i].1@, signature_of(sources[i].1@)));
    }
    idx
}

pub open spec fn triple_views(v: Seq<(String, String, String)>) -> Seq<(Seq<char>, Seq<char>, Seq<char>)> {
    v.map_values(|t: (String, String, String)| (t.0@, t.1@, t.2@))
}

/// Which of a doc's sources need (re)embedding, given the stored signature
/// of each source (`stored[i]` for `sources[i]`).
pub fn changed_sources(sources: &[(String, String)], stored: &[Option<String>]) -> (r: Vec<
    (String, String, String),
>)
    requires
        stored@.len() == sources@.len(),
    ensures
        triple_views(r@) == source_changes(sources@, stored@),
{
    let mut out: Vec<(String, String, String)> = Vec::new();
    let mut k: usize = 0;
    proof {
        assert(triple_views(out@) =~= Seq::<(Seq<char>, Seq<char>, Seq<char>)>::empty());
    }
    while k < sources.len()
        invariant
            k <= sources@.len(),
            stored@.len() == sources@.len(),
            triple_views(out@) == source_changes(sources@.take(k as int), stored@.take(k as int)),
        decreases sources.len() - k,
    {
        proof {
            assert(sources@.take(k + 1).drop_last() =~= sources@.take(k as int));
            assert(stored@.take(k + 1).drop_last() =~= stored@.take(k as int));
            assert(sources@.take(k + 1).last() == sources@[k as int]);
            assert(stored@.take(k + 1).last() == stored@[k as int]);
        }
        let source = &sources[k].0;
        let text = &sources[k].1;
        let st = &stored[k];
        let blank = is_blank_chars(&chars_of(text.as_str()));
        if !(blank && st.is_none()) {
            let sig = text_signature(text.as_str());
            let same = match st {
                Some(x) => crate::text::str_eq(x.as_str(), sig.as_str()),
                None => false,
            };
            if !same {
                let t = (source.clone(), text.clone(), sig);
                proof {
                    assert(triple_views(out@.push(t)) =~= triple_views(out@).push(
                        (t.0@, t.1@, t.2@),
                    ));
                }
                out.push(t);
            }
        }
        k = k + 1;
    }
    proof {
        assert(sources@.take(sources@.len() as int) =~= sources@);
        assert(stored@.take(stored@.len() as int) =~= stored@);
    }
    out
}

/// A repo's identity in the embedding store plus its corpus texts, one entry
/// per source kind (present even when empty, so a cleared source is noticed).
#[derive(Debug, Clone)]
pub struct RepoDoc {
    pub host: String,
    pub slug: String,
    /// `(source kind, text)`: the full pre-chunk text per source.
    pub sources: Vec<(String, String)>,
}

/// Size of the embedding index.
#[derive(Debug, Clone, Copy, PartialEq, Eq, Structural)]
pub struct IndexStats {
    /// Stored chunks (rows).
    pub chunks: usize,
    /// Distinct (host, slug) pairs with at least one chunk.
    pub repos: usize,
    /// Total bytes of stored vectors and chunk text.
    pub bytes: u64,
}

impl Default for IndexStats {
    fn default() -> (r: Self)
        ensures
            r.chunks == 0 && r.repos == 0 && r.bytes == 0,
    {
        IndexStats { chunks: 0, repos: 0, bytes: 0 }
    }
}

/// The `description` source: name, slug, language and description, so
/// queries land even for a repo without a readme.
pub open spec fn description_source(repo: Repo) -> Seq<char> {
    repo.display_name@ + " "@ + crate::ai::or_text(repo.slug, Seq::empty()) + " "@
        + crate::ai::or_text(repo.language, Seq::empty()) + " "@ + crate::ai::or_text(
        repo.description,
        Seq::empty(),
    )
}

/// The readme text, capped at `README_MAX_CHARS` characters.
pub fn cap_readme_text(text: &str) -> (r: String)
    ensures
        r@ == clamp(text@, README_MAX_CHARS as nat),
{
    string_from(&clamp_chars(&chars_of(text), README_MAX_CHARS))
}

fn push_opt(out: &mut Vec<char>, o: &Option<String>)
    ensures
        final(out)@ == old(out)@ + crate::ai::or_text(*o, Seq::empty()),
{
    match o {
        Some(v) => push_str(out, v.as_str()),
        None => {
            proof {
                assert(old(out)@ + Seq::<char>::empty() =~= old(out)@);
            }
        },
    }
}

pub fn join_with(parts: &[String], sep: &str) -> (r: String)
    ensures
        r@ == join(str_views(parts@), sep@),
{
    let mut v: Vec<Vec<char>> = Vec::new();
    let mut k: usize = 0;
    while k < parts.len()
        invariant
            k <= parts@.len(),
            views(v@) == str_views(parts@).take(k as int),
        decreases parts.len() - k,
    {
        let c = chars_of(parts[k].as_str());
        proof {
            lemma_views_push(v@, c);
            assert(str_views(parts@).take(k + 1) =~= str_views(parts@).take(k as int).push(
                parts@[k as int]@,
            ));
        }
        v.push(c);
        k = k + 1;
    }
    proof {
        assert(str_views(parts@).take(parts@.len() as int) =~= str_views(parts@));
    }
    string_from(&crate::text::join_chars(&v, &chars_of(sep)))
}

/// Build a repo's corpus doc from what was read for it: the readme text, the
/// drawer note, and recent commit subjects.
pub fn build_doc(repo: &Repo, readme: &str, note: &str, commit_subjects: &[String]) -> (r: RepoDoc)
    ensures
        (r.host@, r.slug@) == key_of(*repo),
        r.sources@.len() == 5,
        r.sources@[0].0@ == SOURCE_README@ && r.sources@[0].1@ == clamp(
            readme@,
            README_MAX_CHARS as nat,
        ),
        r.sources@[1].0@ == SOURCE_DESCRIPTION@ && r.sources@[1].1@ == description_source(*repo),
        r.sources@[2].0@ == SOURCE_TOPICS@ && r.sources@[2].1@ == join(
            str_views(repo.topics@),
            ", "@,
        ),
        r.sources@[3].0@ == SOURCE_NOTES@ && r.sources@[3].1@ == note@,
        r.sources@[4].0@ == SOURCE_COMMITS@ && r.sources@[4].1@ == join(
            str_views(commit_subjects@),
            "\n"@,
        ),
{
    let (host, slug) = repo_key(repo);
    let mut d = chars_of(repo.display_name.as_str());
    push_str(&mut d, " ");
    push_opt(&mut d, &repo.slug);
    push_str(&mut d, " ");
    push_opt(&mut d, &repo.language);
    push_str(&mut d, " ");
    push_opt(&mut d, &repo.description);
    let mut sources: Vec<(String, String)> = Vec::new();
    sources.push((string_from(&chars_of(SOURCE_README)), cap_readme_text(readme)));
    sources.push((string_from(&chars_of(SOURCE_DESCRIPTION)), string_from(&d)));
    sources.push((string_from(&chars_of(SOURCE_TOPICS)), join_with(repo.topics.as_slice(), ", ")));
    sources.push((string_from(&chars_of(SOURCE_NOTES)), string_from(&chars_of(note))));
    sources.push((string_from(&chars_of(SOURCE_COMMITS)), join_with(commit_subjects, "\n")));
    RepoDoc { host, slug, sources }
}

} // verus!
