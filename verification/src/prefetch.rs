//! Decoded images kept around, and which one to decode before it is asked for.

use vstd::prelude::*;
use crate::cache;
use crate::cache::{Held, ImageCache, Stamp};
use crate::decode::Decoded;
use crate::path;
use crate::path::canonical;

verus! {

/// How far either side of the current image to decode ahead.
pub const PREFETCH_RADIUS: usize = 1;

/// Decoded images, and which of them are only the first frame of an animated file.
pub struct Shelf<A> {
    cache: ImageCache<A>,
    stills: Vec<String>,
}

/// A shelf as mathematics: what is held, oldest first, and the paths that were decoded
/// without their frames.
pub struct Shelved<A> {
    pub held: Seq<Held<A>>,
    pub stills: Set<Seq<char>>,
}

impl<A> View for Shelf<A> {
    type V = Shelved<A>;

    closed spec fn view(&self) -> Shelved<A> {
        Shelved {
            held: self.cache@,
            stills: Set::new(|path: Seq<char>| is_among(self.stills@, path)),
        }
    }
}

/// Whether a path is one of a list.
pub open spec fn is_among(paths: Seq<String>, path: Seq<char>) -> bool {
    exists|i: int| 0 <= i < paths.len() && (#[trigger] paths[i])@ == path
}

impl<A> Shelf<A> {
    pub closed spec fn wf(&self) -> bool {
        self.cache.wf()
    }

    pub closed spec fn limit(&self) -> usize {
        self.cache.limit()
    }

    /// The image held for this file, if the file still looks as it did.
    pub closed spec fn on_hand(&self, path: Seq<char>, stamp: Stamp) -> Option<Decoded<A>> {
        self.cache.served(path, stamp)
    }

    /// The image that is handed out. One without its frames is not good enough where
    /// frames are wanted.
    pub open spec fn handed_out(
        &self,
        path: Seq<char>,
        stamp: Stamp,
        want_animation: bool,
    ) -> Option<Decoded<A>> {
        if want_animation && self@.stills.contains(path::canonical_of(path)) {
            None
        } else {
            self.on_hand(path, stamp)
        }
    }

    pub fn with_budget(budget: usize) -> (shelf: Self)
        ensures
            shelf.wf(),
            shelf.limit() == budget,
            shelf@.held == Seq::<Held<A>>::empty(),
            shelf@.stills == Set::<Seq<char>>::empty(),
    {
        let shelf = Shelf { cache: ImageCache::with_budget(budget), stills: Vec::new() };
        assert(shelf@.stills =~= Set::empty());
        shelf
    }

    fn is_still(&self, key: &String) -> (still: bool)
        ensures
            still == self@.stills.contains(key@),
    {
        let mut i: usize = 0;
        while i < self.stills.len()
            invariant
                i <= self.stills@.len(),
                forall|k: int| 0 <= k < i ==> (#[trigger] self.stills@[k])@ != key@,
            decreases self.stills@.len() - i,
        {
            if self.stills[i] == *key {
                assert(is_among(self.stills@, key@));
                return true;
            }
            i += 1;
        }
        false
    }

    /// Forgets that a path was decoded without its frames.
    fn unmark(&mut self, key: &String)
        ensures
            final(self).cache == old(self).cache,
            final(self)@.stills == old(self)@.stills.remove(key@),
    {
        let mut kept: Vec<String> = Vec::new();
        let mut i: usize = 0;
        while i < self.stills.len()
            invariant
                i <= self.stills@.len(),
                *self == *old(self),
                forall|path: Seq<char>| #[trigger]
                    is_among(kept@, path) == (path != key@ && is_among(
                        self.stills@.take(i as int),
                        path,
                    )),
            decreases self.stills@.len() - i,
        {
            let ghost before = kept@;
            let ghost part = self.stills@.take(i as int);
            let ghost more = self.stills@.take(i + 1);
            assert(more == part.push(self.stills@[i as int]));
            if self.stills[i] != *key {
                kept.push(self.stills[i].clone());
            }
            proof {
                lemma_among_push(part, self.stills@[i as int]);
                if self.stills@[i as int]@ != key@ {
                    lemma_among_push(before, kept@.last());
                }
            }
            i += 1;
        }
        assert(self.stills@.take(i as int) =~= self.stills@);
        self.stills = kept;
        assert(self@.stills =~= old(self)@.stills.remove(key@));
    }

    /// The decoded image for `path`, if it is in hand and still matches the file. Counts as
    /// use.
    pub fn cached(&mut self, path: &str, stamp: &Stamp, want_animation: bool) -> (decoded: Option<
        Decoded<A>,
    >)
        requires
            old(self).wf(),
        ensures
            final(self).wf(),
            final(self).limit() == old(self).limit(),
            decoded == old(self).handed_out(path@, *stamp, want_animation),
            final(self)@.stills == old(self)@.stills,
            final(self)@.held == ({
                let key = path::canonical_of(path@);
                let at = cache::place(old(self)@.held, key);
                if want_animation && old(self)@.stills.contains(key) {
                    old(self)@.held
                } else if decoded is Some {
                    old(self)@.held.remove(at).push(old(self)@.held[at])
                } else {
                    cache::without(old(self)@.held, key)
                }
            }),
    {
        if want_animation {
            let key = canonical(path);
            if self.is_still(&key) {
                return None;
            }
        }
        let found = self.cache.get(path, stamp);
        assert(self@.stills =~= old(self)@.stills);
        found
    }

    /// Keeps an image that was decoded whole, so that stepping back to it is free.
    pub fn store(&mut self, path: &str, stamp: Stamp, decoded: Decoded<A>)
        requires
            old(self).wf(),
            decoded.weight() <= usize::MAX,
        ensures
            final(self).wf(),
            final(self).limit() == old(self).limit(),
            final(self)@.stills == old(self)@.stills.remove(path::canonical_of(path@)),
            final(self)@.held == shelved(
                old(self)@.held,
                path@,
                stamp,
                decoded,
                old(self).limit() as int,
            ),
            final(self).handed_out(path@, stamp, true) == Some(decoded),
            final(self).handed_out(path@, stamp, false) == Some(decoded),
    {
        let key = canonical(path);
        self.unmark(&key);
        let ghost stills = self@.stills;
        self.cache.insert(path, stamp, decoded);
        assert(self@.stills =~= stills);
    }

    /// Keeps an image that was decoded ahead, as a still. `animates` says whether its file
    /// may hold frames that were left out.
    pub fn warm(&mut self, path: &str, stamp: Stamp, decoded: Decoded<A>, animates: bool)
        requires
            old(self).wf(),
            decoded.weight() <= usize::MAX,
        ensures
            final(self).wf(),
            final(self).limit() == old(self).limit(),
            final(self)@.stills == (if animates {
                old(self)@.stills.insert(path::canonical_of(path@))
            } else {
                old(self)@.stills.remove(path::canonical_of(path@))
            }),
            final(self)@.held == shelved(
                old(self)@.held,
                path@,
                stamp,
                decoded,
                old(self).limit() as int,
            ),
            final(self).handed_out(path@, stamp, false) == Some(decoded),
            final(self).handed_out(path@, stamp, true) == (if animates {
                None
            } else {
                Some(decoded)
            }),
    {
        self.store(path, stamp, decoded);
        if animates {
            let key = canonical(path);
            let ghost before = self.stills@;
            let ghost stills = self@.stills;
            self.stills.push(key);
            proof {
                lemma_among_push(before, key);
                assert(self@.stills =~= stills.insert(key@));
                assert(self@.stills =~= old(self)@.stills.insert(key@));
            }
        }
    }

    /// Drops an image: its file is gone.
    pub fn forget(&mut self, path: &str)
        requires
            old(self).wf(),
        ensures
            final(self).wf(),
            final(self).limit() == old(self).limit(),
            final(self)@.stills == old(self)@.stills.remove(path::canonical_of(path@)),
            final(self)@.held == cache::without(old(self)@.held, path::canonical_of(path@)),
            !cache::holds_path(final(self)@.held, path::canonical_of(path@)),
    {
        let key = canonical(path);
        self.unmark(&key);
        let ghost stills = self@.stills;
        self.cache.remove(path);
        assert(self@.stills =~= stills);
    }

    /// Whether a file is worth decoding ahead: it is there, and not in hand already.
    pub fn wants(&self, path: &str, stamp: Option<Stamp>) -> (wanted: bool)
        ensures
            wanted == (match stamp {
                Some(stamp) => self.on_hand(path@, stamp) is None,
                None => false,
            }),
    {
        match stamp {
            Some(stamp) => !self.cache.holds(path, &stamp),
            None => false,
        }
    }
}

proof fn lemma_among_push(paths: Seq<String>, last: String)
    ensures
        forall|path: Seq<char>| #[trigger]
            is_among(paths.push(last), path) == (is_among(paths, path) || last@ == path),
{
    let all = paths.push(last);
    assert forall|path: Seq<char>| #[trigger] is_among(all, path) == (is_among(paths, path)
        || last@ == path) by {
        if is_among(paths, path) {
            let i = choose|i: int| 0 <= i < paths.len() && (#[trigger] paths[i])@ == path;
            assert(all[i]@ == path);
        }
        if last@ == path {
            assert(all[paths.len() as int]@ == path);
        }
        if is_among(all, path) {
            let i = choose|i: int| 0 <= i < all.len() && (#[trigger] all[i])@ == path;
            if i < paths.len() {
                assert(paths[i]@ == path);
            }
        }
    }
}

/// What is held once an image has been added: it in place of any other of its path, and the
/// oldest gone until the rest fit.
pub open spec fn shelved<A>(
    held: Seq<Held<A>>,
    path: Seq<char>,
    stamp: Stamp,
    decoded: Decoded<A>,
    budget: int,
) -> Seq<Held<A>> {
    cache::trimmed(
        cache::without(held, path::canonical_of(path)).push(
            Held { path: path::canonical_of(path), decoded, stamp },
        ),
        budget,
    )
}

/// The images that are still to be decoded ahead.
#[derive(Debug)]
pub struct Queue {
    pub rest: Vec<String>,
}

impl Queue {
    /// The list to work on: the newest request, or what is left of the last one.
    pub open spec fn list(&self, newest: Option<Vec<String>>) -> Seq<String> {
        match newest {
            Some(newest) => newest@,
            None => self.rest@,
        }
    }

    pub fn new() -> (queue: Queue)
        ensures
            queue.rest@ == Seq::<String>::empty(),
    {
        Queue { rest: Vec::new() }
    }

    /// The next image to decode. Only the newest request says where the user is, so it
    /// drops whatever was left of an older one.
    pub fn advance(&mut self, newest: Option<Vec<String>>) -> (path: Option<String>)
        ensures
            path == (if old(self).list(newest).len() == 0 {
                None
            } else {
                Some(old(self).list(newest)[0])
            }),
            final(self).rest@ == (if old(self).list(newest).len() == 0 {
                Seq::empty()
            } else {
                old(self).list(newest).skip(1)
            }),
    {
        if let Some(newest) = newest {
            self.rest = newest;
        }
        if self.rest.len() == 0 {
            return None;
        }
        let ghost all = self.rest@;
        let path = self.rest.remove(0);
        assert(self.rest@ =~= all.skip(1));
        Some(path)
    }
}

/// Whether a request is worth sending: an empty one would only drop the last.
pub fn is_request(paths: &Vec<String>) -> (worth: bool)
    ensures
        worth == (paths@.len() > 0),
{
    paths.len() > 0
}

/// What was just read stands last on the shelf, under its own path, and nowhere else. All else
/// that stands there stood there before.
pub proof fn law_what_was_just_read_stays<A>(
    held: Seq<Held<A>>,
    path: Seq<char>,
    stamp: Stamp,
    decoded: Decoded<A>,
    budget: int,
    i: int,
)
    requires
        forall|m: int, n: int|
            0 <= m < n < held.len() ==> (#[trigger] held[m]).path != (#[trigger] held[n]).path,
    ensures
        ({
            let after = shelved(held, path, stamp, decoded, budget);
            let own = path::canonical_of(path);
            &&& after.len() > 0
            &&& after.last().path == own && after.last().decoded == decoded && after.last().stamp
                == stamp
            &&& 0 <= i < after.len() - 1 ==> after[i].path != own && held.contains(after[i])
        }),
{
    let own = path::canonical_of(path);
    let fresh = Held { path: own, decoded, stamp };
    let rest = cache::without(held, own);
    let all = rest.push(fresh);
    cache::law_taking_out_leaves_the_others(held, own);
    cache::law_the_oldest_go_first(all, budget);
    let after = shelved(held, path, stamp, decoded, budget);
    if 0 <= i < after.len() - 1 {
        let k = i + all.len() - after.len();
        assert(after[i] == all[k] && all[k] == rest[k]);
        if cache::holds_path(held, own) {
            let at = choose|at: int|
                0 <= at < held.len() && (#[trigger] held[at]).path == own && rest == held.take(at)
                    + held.skip(at + 1);
            if k < at {
                assert(rest[k] == held[k]);
            } else {
                assert(rest[k] == held[k + 1]);
            }
        } else {
            assert(rest[k] == held[k]);
        }
    }
}

} // verus!
