//! The live-watch target set: which directories under a repo get a
//! (non-recursive) watch. A breadth-first walk, a few levels deep and capped
//! per repo, that skips VCS metadata and the configured ignore names. The
//! caller lists each directory the walk asks for and hands the listing back.
use vstd::prelude::*;

use crate::text::{str_eq, str_views};

verus! {

/// How deep under a repo root nested watches go (the root is depth 0).
pub const NESTED_WATCH_DEPTH: usize = 3;

/// Cap on nested directory watches per repo.
pub const NESTED_WATCH_CAP: usize = 96;

/// A directory the walk never enters: VCS metadata or a configured ignore name.
pub open spec fn ignored(name: Seq<char>, ignore: Seq<Seq<char>>) -> bool {
    name == ".git"@ || name == ".hg"@ || name == ".svn"@ || ignore.contains(name)
}

/// Whether the walk skips a directory named `name`.
pub fn ignored_dir(name: &str, ignore: &[String]) -> (r: bool)
    ensures
        r == ignored(name@, str_views(ignore@)),
{
    if str_eq(name, ".git") || str_eq(name, ".hg") || str_eq(name, ".svn") {
        return true;
    }
    let mut k: usize = 0;
    while k < ignore.len()
        invariant
            k <= ignore@.len(),
            forall|m: int| 0 <= m < k ==> ignore@[m]@ != name@,
        decreases ignore.len() - k,
    {
        if str_eq(ignore[k].as_str(), name) {
            proof {
                assert(str_views(ignore@)[k as int] == name@);
            }
            return true;
        }
        k = k + 1;
    }
    proof {
        if str_views(ignore@).contains(name@) {
            let m = choose|m: int| 0 <= m < str_views(ignore@).len() && str_views(ignore@)[m] == name@;
            assert(ignore@[m]@ == name@);
        }
    }
    false
}

/// One entry of a directory listing (names that are not valid UTF-8 are left
/// out of listings).
#[derive(Debug, Clone)]
pub struct DirEntry {
    pub name: String,
    pub path: String,
    pub is_dir: bool,
}

/// The walk in progress: directories queued for listing (`queue[head..]`,
/// each with its depth) and the watch directories found so far.
#[derive(Debug, Clone)]
pub struct NestedWalk {
    pub queue: Vec<(String, usize)>,
    pub head: usize,
    pub out: Vec<String>,
}

/// (found, queued) of a walk, as text.
pub type WalkV = (Seq<Seq<char>>, Seq<(Seq<char>, usize)>);

/// One listing entry taken in: a directory that is not ignored is a watch
/// target, and is queued for listing while it is shallow enough; once the cap
/// is reached nothing more is taken.
pub open spec fn take_entry(st: WalkV, depth: usize, e: DirEntry, ignore: Seq<Seq<char>>) -> WalkV {
    if st.0.len() >= NESTED_WATCH_CAP || !e.is_dir || ignored(e.name@, ignore) {
        st
    } else {
        (
            st.0.push(e.path@),
            if depth + 1 < NESTED_WATCH_DEPTH {
                st.1.push((e.path@, (depth + 1) as usize))
            } else {
                st.1
            },
        )
    }
}

/// A whole listing taken in, entry by entry.
pub open spec fn take_listing(st: WalkV, depth: usize, es: Seq<DirEntry>, ignore: Seq<Seq<char>>) -> WalkV
    decreases es.len(),
{
    if es.len() == 0 {
        st
    } else {
        take_entry(take_listing(st, depth, es.drop_last(), ignore), depth, es.last(), ignore)
    }
}

pub open spec fn queue_view(q: Seq<(String, usize)>) -> Seq<(Seq<char>, usize)> {
    q.map_values(|x: (String, usize)| (x.0@, x.1))
}

impl NestedWalk {
    /// (found, queued) of this walk.
    pub open spec fn state(self) -> WalkV {
        (str_views(self.out@), queue_view(self.queue@))
    }

    pub open spec fn wf(self) -> bool {
        self.head <= self.queue@.len()
    }

    /// A walk from a repo root: only the root queued, nothing found.
    pub fn start(repo: &str) -> (r: Self)
        ensures
            r.wf(),
            r.head == 0,
            r.state() == (Seq::<Seq<char>>::empty(), seq![(repo@, 0usize)]),
    {
        let mut queue: Vec<(String, usize)> = Vec::new();
        queue.push((crate::text::string_from(&crate::text::chars_of(repo)), 0));
        let r = NestedWalk { queue, head: 0, out: Vec::new() };
        proof {
            assert(queue_view(r.queue@) =~= seq![(repo@, 0usize)]);
            assert(str_views(r.out@) =~= Seq::<Seq<char>>::empty());
        }
        r
    }

    /// The next directory to list with its depth, or `None` when the walk is
    /// over (queue drained, depth limit, or cap reached).
    pub fn next_dir(&mut self) -> (r: Option<(String, usize)>)
        requires
            old(self).wf(),
        ensures
            final(self).wf(),
            final(self).state() == old(self).state(),
            if old(self).head >= old(self).queue@.len() || old(self).out@.len() >= NESTED_WATCH_CAP
                || old(self).queue@[old(self).head as int].1 >= NESTED_WATCH_DEPTH {
                r is None && final(self).head == old(self).head
            } else {
                r matches Some((d, depth)) && d@ == old(self).queue@[old(self).head as int].0@ && depth
                    == old(self).queue@[old(self).head as int].1 && final(self).head == old(self).head + 1
            },
    {
        if self.head >= self.queue.len() || self.out.len() >= NESTED_WATCH_CAP {
            return None;
        }
        let depth = self.queue[self.head].1;
        if depth >= NESTED_WATCH_DEPTH {
            return None;
        }
        let d = self.queue[self.head].0.clone();
        self.head = self.head + 1;
        Some((d, depth))
    }

    /// Take in the listing of a directory at `depth`.
    pub fn visit(&mut self, depth: usize, entries: &[DirEntry], ignore: &[String])
        requires
            old(self).wf(),
            depth < NESTED_WATCH_DEPTH,
        ensures
            final(self).wf(),
            final(self).head == old(self).head,
            final(self).state() == take_listing(old(self).state(), depth, entries@, str_views(ignore@)),
    {
        let ghost st0 = self.state();
        let mut k: usize = 0;
        proof {
            assert(entries@.take(0) =~= Seq::<DirEntry>::empty());
        }
        while k < entries.len()
            invariant
                k <= entries@.len(),
                self.wf(),
                self.head == old(self).head,
                depth < NESTED_WATCH_DEPTH,
                st0 == old(self).state(),
                self.state() == take_listing(st0, depth, entries@.take(k as int), str_views(ignore@)),
            decreases entries.len() - k,
        {
            proof {
                assert(entries@.take(k + 1).drop_last() =~= entries@.take(k as int));
                assert(entries@.take(k + 1).last() == entries@[k as int]);
            }
            let e = &entries[k];
            if self.out.len() < NESTED_WATCH_CAP && e.is_dir && !ignored_dir(e.name.as_str(), ignore) {
                let ghost before = self.state();
                self.out.push(e.path.clone());
                if depth + 1 < NESTED_WATCH_DEPTH {
                    self.queue.push((e.path.clone(), depth + 1));
                }
                proof {
                    assert(str_views(self.out@) =~= before.0.push(e.path@));
                    if depth + 1 < NESTED_WATCH_DEPTH {
                        assert(queue_view(self.queue@) =~= before.1.push((e.path@, (depth + 1) as usize)));
                    } else {
                        assert(queue_view(self.queue@) =~= before.1);
                    }
                }
            }
            k = k + 1;
        }
        proof {
            assert(entries@.take(entries@.len() as int) =~= entries@);
        }
    }

    /// The watch directories found.
    pub fn found(&self) -> (r: Vec<String>)
        ensures
            str_views(r@) == self.state().0,
    {
        let r = self.out.clone();
        proof {
            assert(str_views(r@) =~= str_views(self.out@));
        }
        r
    }
}

/// The found list never exceeds the cap, whatever the listings.
pub proof fn law_walk_capped(st: WalkV, depth: usize, es: Seq<DirEntry>, ignore: Seq<Seq<char>>)
    requires
        st.0.len() <= NESTED_WATCH_CAP,
    ensures
        take_listing(st, depth, es, ignore).0.len() <= NESTED_WATCH_CAP,
        take_listing(st, depth, es, ignore).0.len() >= st.0.len(),
    decreases es.len(),
{
    if es.len() > 0 {
        law_walk_capped(st, depth, es.drop_last(), ignore);
    }
}

} // verus!
