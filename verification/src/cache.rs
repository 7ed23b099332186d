//! Keeping decoded images around, inside a fixed memory budget.
//!
//! Budgeted in bytes rather than in entries, because entries are not comparable. The
//! least recently used image goes first.

use vstd::prelude::*;
use crate::decode::Decoded;
use crate::path;
use crate::path::canonical;

verus! {

/// How much memory decoded images may occupy by default.
pub const DEFAULT_BUDGET: usize = 536_870_912;

/// When a file was last written: seconds since the epoch, and nanoseconds on top.
#[derive(Debug, Clone, Copy, PartialEq, Eq, Structural)]
pub struct Moment {
    pub secs: i64,
    pub nanos: u32,
}

/// What a file looked like on disk when it was decoded.
///
/// Saving over the image being viewed leaves the path alone and changes the pixels.
/// Length and time of modification together catch that.
#[derive(Debug, Clone, Copy, PartialEq, Eq, Structural)]
pub struct Stamp {
    pub file_size: u64,
    /// Nothing where the filesystem does not say.
    pub modified: Option<Moment>,
}

impl Stamp {
    /// Size of the file on disk, in bytes.
    pub fn file_size(&self) -> (bytes: u64)
        ensures
            bytes == self.file_size,
    {
        self.file_size
    }
}

/// One image held.
struct Entry<A> {
    path: String,
    decoded: Decoded<A>,
    stamp: Stamp,
    bytes: usize,
}

/// One image held, as mathematics. Its path is the one text for all ways of writing it.
pub struct Held<A> {
    pub path: Seq<char>,
    pub decoded: Decoded<A>,
    pub stamp: Stamp,
}

/// The bytes of pixels that the held images occupy.
pub open spec fn total<A>(held: Seq<Held<A>>) -> int
    decreases held.len(),
{
    if held.len() == 0 {
        0
    } else {
        held[0].decoded.weight() + total(held.skip(1))
    }
}

/// Whether a path is among the held images.
pub open spec fn holds_path<A>(held: Seq<Held<A>>, path: Seq<char>) -> bool {
    exists|i: int| 0 <= i < held.len() && (#[trigger] held[i]).path == path
}

/// Where a path is among the held images, or their number if it is not.
pub open spec fn place<A>(held: Seq<Held<A>>, path: Seq<char>) -> int
    decreases held.len(),
{
    if held.len() == 0 {
        0
    } else if held[0].path == path {
        0
    } else {
        1 + place(held.skip(1), path)
    }
}

/// The held images without the one at a path.
pub open spec fn without<A>(held: Seq<Held<A>>, path: Seq<char>) -> Seq<Held<A>> {
    let at = place(held, path);
    if at < held.len() {
        held.remove(at)
    } else {
        held
    }
}

/// What the budget leaves: the oldest go until the rest fits, but the newest always
/// stays, however large it is.
pub open spec fn trimmed<A>(held: Seq<Held<A>>, budget: int) -> Seq<Held<A>>
    decreases held.len(),
{
    if held.len() > 1 && total(held) > budget {
        trimmed(held.skip(1), budget)
    } else {
        held
    }
}

/// Decoded images, held until the budget says otherwise, the least recently used first.
pub struct ImageCache<A> {
    budget: usize,
    used: usize,
    entries: Vec<Entry<A>>,
}

impl<A> Entry<A> {
    spec fn view(&self) -> Held<A> {
        Held { path: self.path@, decoded: self.decoded, stamp: self.stamp }
    }
}

impl<A> View for ImageCache<A> {
    type V = Seq<Held<A>>;

    closed spec fn view(&self) -> Seq<Held<A>> {
        Seq::new(self.entries@.len(), |i: int| self.entries@[i]@)
    }
}

impl<A> ImageCache<A> {
    pub closed spec fn limit(&self) -> usize {
        self.budget
    }

    /// The image that is served for a path, if the file still looks as it did.
    pub open spec fn served(&self, path: Seq<char>, stamp: Stamp) -> Option<Decoded<A>> {
        let at = place(self@, path::canonical_of(path));
        if at < self@.len() && self@[at].stamp == stamp {
            Some(self@[at].decoded)
        } else {
            None
        }
    }

    /// No path is held twice, and what is used is what is held.
    pub closed spec fn wf(&self) -> bool {
        &&& self.used == total(self@)
        &&& forall|i: int|
            0 <= i < self.entries@.len() ==> (#[trigger] self.entries@[i]).bytes
                == self.entries@[i].decoded.weight()
        &&& forall|i: int, j: int|
            0 <= i < j < self.entries@.len() ==> (#[trigger] self.entries@[i]).path@ != (
            #[trigger] self.entries@[j]).path@
    }
}

/// Where a path is found is where it is held.
proof fn lemma_place<A>(held: Seq<Held<A>>, path: Seq<char>)
    ensures
        0 <= place(held, path) <= held.len(),
        place(held, path) < held.len() ==> held[place(held, path)].path == path,
        forall|i: int| 0 <= i < place(held, path) ==> (#[trigger] held[i]).path != path,
    decreases held.len(),
{
    if held.len() > 0 && held[0].path != path {
        lemma_place(held.skip(1), path);
        assert forall|i: int| 0 <= i < place(held, path) implies (#[trigger] held[i]).path
            != path by {
            if i > 0 {
                assert(held.skip(1)[i - 1].path != path);
            }
        }
    }
}

/// Taking one image out takes its bytes out.
proof fn lemma_total_remove<A>(held: Seq<Held<A>>, i: int)
    requires
        0 <= i < held.len(),
    ensures
        total(held.remove(i)) == total(held) - held[i].decoded.weight(),
    decreases held.len(),
{
    if i == 0 {
        assert(held.remove(0) =~= held.skip(1));
    } else {
        lemma_total_remove(held.skip(1), i - 1);
        assert(held.remove(i).skip(1) =~= held.skip(1).remove(i - 1));
        assert(held.remove(i)[0] == held[0]);
        assert(held.skip(1)[i - 1] == held[i]);
    }
}

/// Putting one image in puts its bytes in.
proof fn lemma_total_push<A>(held: Seq<Held<A>>, new: Held<A>)
    ensures
        total(held.push(new)) == total(held) + new.decoded.weight(),
    decreases held.len(),
{
    let more = held.push(new);
    if held.len() == 0 {
        reveal_with_fuel(total, 2);
        assert(more.skip(1) =~= Seq::<Held<A>>::empty());
    } else {
        lemma_total_push(held.skip(1), new);
        assert(more.skip(1) =~= held.skip(1).push(new));
    }
}

proof fn lemma_bytes_are_positive<A>(frames: Decoded<A>)
    ensures
        frames.weight() >= 0,
{
    if let Some(animation) = frames.animation {
        lemma_frames_weigh(animation.frames@, animation.frames@.len() as int);
    }
}

proof fn lemma_frames_weigh(
    frames: Seq<std::sync::Arc<crate::raster::Raster>>,
    n: int,
)
    ensures
        crate::decode::bytes_of(frames, n) >= 0,
    decreases n,
{
    if n > 0 {
        lemma_frames_weigh(frames, n - 1);
    }
}

proof fn lemma_total_positive<A>(held: Seq<Held<A>>)
    ensures
        total(held) >= 0,
    decreases held.len(),
{
    if held.len() > 0 {
        lemma_total_positive(held.skip(1));
        lemma_bytes_are_positive(held[0].decoded);
    }
}

/// What is left after trimming: the newest images, down to one that stays whatever it
/// weighs.
proof fn lemma_trimmed<A>(held: Seq<Held<A>>, budget: int)
    ensures
        trimmed(held, budget).len() <= held.len(),
        held.len() >= 1 ==> trimmed(held, budget).len() >= 1,
        trimmed(held, budget) == held.skip(held.len() - trimmed(held, budget).len()),
        total(trimmed(held, budget)) <= budget || trimmed(held, budget).len() <= 1,
    decreases held.len(),
{
    if held.len() > 1 && total(held) > budget {
        lemma_trimmed(held.skip(1), budget);
        let rest = trimmed(held.skip(1), budget);
        assert(held.skip(1).skip(held.skip(1).len() - rest.len()) =~= held.skip(
            held.len() - rest.len(),
        ));
    } else {
        assert(held.skip(0) =~= held);
    }
}

impl<A> ImageCache<A> {
    pub fn with_budget(budget: usize) -> (cache: Self)
        ensures
            cache.wf(),
            cache.limit() == budget,
            cache@ == Seq::<Held<A>>::empty(),
    {
        let cache = ImageCache { budget, used: 0, entries: Vec::new() };
        assert(cache@ =~= Seq::<Held<A>>::empty());
        cache
    }

    pub fn budget(&self) -> (budget: usize)
        ensures
            budget == self.limit(),
    {
        self.budget
    }

    /// Bytes of decoded pixels currently held.
    pub fn used(&self) -> (bytes: usize)
        requires
            self.wf(),
        ensures
            bytes == total(self@),
    {
        self.used
    }

    pub fn len(&self) -> (count: usize)
        ensures
            count == self@.len(),
    {
        self.entries.len()
    }

    pub fn is_empty(&self) -> (empty: bool)
        ensures
            empty == (self@.len() == 0),
    {
        self.entries.len() == 0
    }

    fn find(&self, key: &String) -> (at: usize)
        ensures
            at == place(self@, key@),
            at <= self.entries@.len(),
    {
        let mut at: usize = 0;
        assert(self@.skip(0) =~= self@);
        while at < self.entries.len()
            invariant
                at <= self.entries@.len(),
                place(self@, key@) == at + place(self@.skip(at as int), key@),
            decreases self.entries@.len() - at,
        {
            assert(self@.skip(at as int)[0] == self.entries@[at as int]@);
            if self.entries[at].path == *key {
                return at;
            }
            assert(self@.skip(at as int).skip(1) =~= self@.skip(at + 1));
            at += 1;
        }
        at
    }

    /// Whether this exact file is held. A peek, which does not count as use.
    pub fn holds(&self, path: &str, stamp: &Stamp) -> (held: bool)
        ensures
            held == (self.served(path@, *stamp) is Some),
    {
        let at: usize = self.find(&canonical(path));
        at < self.entries.len() && self.entries[at].stamp == *stamp
    }

    /// Drops `path`, whatever state it is in.
    pub fn remove(&mut self, path: &str)
        requires
            old(self).wf(),
        ensures
            final(self).wf(),
            final(self).limit() == old(self).limit(),
            final(self)@ == without(old(self)@, path::canonical_of(path@)),
            !holds_path(final(self)@, path::canonical_of(path@)),
    {
        let key = canonical(path);
        let at: usize = self.find(&key);
        let ghost before = self@;
        proof {
            lemma_place(before, key@);
        }
        if at < self.entries.len() {
            proof {
                lemma_total_remove(before, at as int);
                lemma_total_positive(before.remove(at as int));
            }
            let entry = self.entries.remove(at);
            self.used = self.used - entry.bytes;
            assert(self@ =~= before.remove(at as int));
        }
        proof {
            assert forall|i: int| 0 <= i < self@.len() implies (#[trigger] self@[i]).path
                != key@ by {}
        }
    }
}

impl<A> ImageCache<A> {
    /// The decoded image for `path`, if it is held and still matches the file. Counts as
    /// use. One that no longer matches is dropped.
    pub fn get(&mut self, path: &str, stamp: &Stamp) -> (decoded: Option<Decoded<A>>)
        requires
            old(self).wf(),
        ensures
            final(self).wf(),
            final(self).limit() == old(self).limit(),
            decoded == old(self).served(path@, *stamp),
            final(self)@ == ({
                let at = place(old(self)@, path::canonical_of(path@));
                if decoded is Some {
                    old(self)@.remove(at).push(old(self)@[at])
                } else {
                    without(old(self)@, path::canonical_of(path@))
                }
            }),
            decoded is None ==> !holds_path(final(self)@, path::canonical_of(path@)),
    {
        let key = canonical(path);
        let at: usize = self.find(&key);
        if at >= self.entries.len() {
            proof {
                lemma_place(self@, key@);
            }
            return None;
        }
        if self.entries[at].stamp != *stamp {
            self.remove(path);
            return None;
        }
        let ghost before = self@;
        let decoded = self.entries[at].decoded.clone();
        proof {
            lemma_place(before, key@);
            lemma_total_remove(before, at as int);
            lemma_total_push(before.remove(at as int), before[at as int]);
        }
        let entry = self.entries.remove(at);
        self.entries.push(entry);
        assert(self@ =~= before.remove(at as int).push(before[at as int]));
        Some(decoded)
    }

    /// Holds an image, in place of any other for the same path, and drops the oldest until
    /// the rest is within the budget.
    pub fn insert(&mut self, path: &str, stamp: Stamp, decoded: Decoded<A>)
        requires
            old(self).wf(),
            decoded.weight() <= usize::MAX,
        ensures
            final(self).wf(),
            final(self).limit() == old(self).limit(),
            final(self)@ == trimmed(
                without(old(self)@, path::canonical_of(path@)).push(
                    Held { path: path::canonical_of(path@), decoded, stamp },
                ),
                old(self).limit() as int,
            ),
            final(self).served(path@, stamp) == Some(decoded),
    {
        self.remove(path);
        let ghost kept = self@;
        let key = canonical(path);
        let ghost new = Held { path: key@, decoded, stamp };
        let bytes: usize = decoded.byte_size();
        let ghost more = kept.push(new);
        let mut used: u128 = self.used as u128 + bytes as u128;
        proof {
            lemma_total_push(kept, new);
            assert forall|i: int| 0 <= i < kept.len() implies self.entries@[i].path@ != key@ by {
                assert(kept[i].path != key@);
            }
        }
        self.entries.push(Entry { path: key, decoded, stamp, bytes });
        assert(self@ =~= more);
        while used > self.budget as u128 && self.entries.len() > 1
            invariant
                self.entries@.len() >= 1,
                self.budget == old(self).budget,
                used == total(self@),
                forall|i: int|
                    0 <= i < self.entries@.len() ==> (#[trigger] self.entries@[i]).bytes
                        == self.entries@[i].decoded.weight(),
                forall|i: int, j: int|
                    0 <= i < j < self.entries@.len() ==> (#[trigger] self.entries@[i]).path@ != (
                    #[trigger] self.entries@[j]).path@,
                trimmed(self@, self.budget as int) == trimmed(more, self.budget as int),
            decreases self.entries@.len(),
        {
            let ghost now = self@;
            proof {
                lemma_total_positive(now.skip(1));
            }
            let oldest = self.entries.remove(0);
            used = used - oldest.bytes as u128;
            assert(self@ =~= now.skip(1));
        }
        proof {
            if self.entries@.len() == 1 {
                reveal_with_fuel(total, 2);
                assert(self@[0] == self.entries@[0]@);
                assert(total(self@.skip(1)) == 0);
            }
        }
        self.used = used as usize;
        proof {
            lemma_trimmed(more, self.budget as int);
            let last = self@.len() - 1;
            assert(self@[last] == new);
            lemma_place(self@, new.path);
            let at = place(self@, new.path);
            if at < last {
                assert(self.entries@[at].path@ != self.entries@[last].path@);
            }
        }
    }
}

impl<A> Default for ImageCache<A> {
    fn default() -> (cache: Self)
        ensures
            cache.wf(),
            cache.limit() == DEFAULT_BUDGET,
            cache@ == Seq::<Held<A>>::empty(),
    {
        ImageCache::with_budget(DEFAULT_BUDGET)
    }
}

/// The budget holds after every insertion, except that one image stays even if it exceeds
/// the budget by itself.
pub proof fn law_the_budget_is_kept<A>(held: Seq<Held<A>>, budget: int)
    ensures
        total(trimmed(held, budget)) <= budget || trimmed(held, budget).len() <= 1,
{
    lemma_trimmed(held, budget);
}

/// Whatever is dropped for the budget was used less recently than all that stays, and what
/// was inserted last stays.
pub proof fn law_the_oldest_go_first<A>(held: Seq<Held<A>>, budget: int)
    requires
        held.len() >= 1,
    ensures
        1 <= trimmed(held, budget).len() <= held.len(),
        trimmed(held, budget).last() == held.last(),
        trimmed(held, budget) == held.skip(held.len() - trimmed(held, budget).len()),
{
    lemma_trimmed(held, budget);
}

/// No more is dropped than the budget asks for: with the last one dropped it was exceeded.
pub proof fn law_nothing_is_dropped_without_need<A>(held: Seq<Held<A>>, budget: int)
    ensures
        trimmed(held, budget).len() < held.len() ==> total(
            held.skip(held.len() - trimmed(held, budget).len() - 1),
        ) > budget,
    decreases held.len(),
{
    if held.len() > 1 && total(held) > budget {
        let rest = held.skip(1);
        lemma_trimmed(rest, budget);
        if trimmed(rest, budget).len() < rest.len() {
            law_nothing_is_dropped_without_need(rest, budget);
            assert(rest.skip(rest.len() - trimmed(rest, budget).len() - 1) =~= held.skip(
                held.len() - trimmed(held, budget).len() - 1,
            ));
        } else {
            assert(held.skip(0) =~= held);
        }
    }
}

/// No path is held twice, so that no bytes are counted twice.
pub proof fn law_no_path_is_held_twice<A>(cache: ImageCache<A>, i: int, j: int)
    requires
        cache.wf(),
        0 <= i < j < cache@.len(),
    ensures
        cache@[i].path != cache@[j].path,
{
    assert(cache.entries@[i].path@ != cache.entries@[j].path@);
}

/// A file that changed on disk is not served: what is served was decoded from a file that
/// looked the same.
pub proof fn law_a_changed_file_is_not_served<A>(
    cache: ImageCache<A>,
    path: Seq<char>,
    then: Stamp,
    now: Stamp,
)
    requires
        cache.served(path, then) is Some,
        then != now,
    ensures
        cache.served(path, now) is None,
{
}

/// What is served was put in for that very file: the same path, however it is written, and the
/// same size and time.
pub proof fn law_what_is_served_was_put_in<A>(cache: ImageCache<A>, path: Seq<char>, stamp: Stamp)
    ensures
        cache.served(path, stamp) matches Some(decoded) ==> exists|i: int|
            0 <= i < cache@.len() && (#[trigger] cache@[i]).path == path::canonical_of(path)
                && cache@[i].stamp == stamp && cache@[i].decoded == decoded,
        cache.wf() ==> forall|i: int|
            0 <= i < cache@.len() && (#[trigger] cache@[i]).path == path::canonical_of(path)
                && cache@[i].stamp == stamp ==> cache.served(path, stamp) == Some(cache@[i].decoded),
{
    let key = path::canonical_of(path);
    law_a_path_is_found_where_it_first_stands(cache@, key);
    if cache.wf() {
        assert forall|i: int|
            0 <= i < cache@.len() && (#[trigger] cache@[i]).path == key && cache@[i].stamp
                == stamp implies cache.served(path, stamp) == Some(cache@[i].decoded) by {
            let at = place(cache@, key);
            if at < i {
                law_no_path_is_held_twice(cache, at, i);
            } else if i < at {
                law_no_path_is_held_twice(cache, i, at);
            }
        }
    }
}

/// A path is found where it first stands, or at the end if it is not held.
pub proof fn law_a_path_is_found_where_it_first_stands<A>(held: Seq<Held<A>>, path: Seq<char>)
    ensures
        0 <= place(held, path) <= held.len(),
        place(held, path) < held.len() ==> held[place(held, path)].path == path,
        forall|i: int| 0 <= i < place(held, path) ==> (#[trigger] held[i]).path != path,
        place(held, path) == held.len() <==> !holds_path(held, path),
    decreases held.len(),
{
    if held.len() > 0 && held[0].path != path {
        let rest = held.skip(1);
        law_a_path_is_found_where_it_first_stands(rest, path);
        assert forall|i: int| 0 <= i < place(held, path) implies (#[trigger] held[i]).path
            != path by {
            if i > 0 {
                assert(rest[i - 1] == held[i]);
            }
        }
        if holds_path(held, path) {
            let i = choose|i: int| 0 <= i < held.len() && (#[trigger] held[i]).path == path;
            assert(rest[i - 1].path == path);
        }
        if holds_path(rest, path) {
            let i = choose|i: int| 0 <= i < rest.len() && (#[trigger] rest[i]).path == path;
            assert(held[i + 1].path == path);
        }
    } else if held.len() > 0 {
        assert(held[0].path == path);
    }
}

/// Taking a path out leaves all others, in their order.
pub proof fn law_taking_out_leaves_the_others<A>(held: Seq<Held<A>>, path: Seq<char>)
    ensures
        !holds_path(held, path) ==> without(held, path) == held,
        holds_path(held, path) ==> exists|at: int|
            0 <= at < held.len() && (#[trigger] held[at]).path == path && without(held, path)
                == held.take(at) + held.skip(at + 1),
{
    law_a_path_is_found_where_it_first_stands(held, path);
    if holds_path(held, path) {
        let at = place(held, path);
        assert(held[at].path == path);
        assert(without(held, path) =~= held.take(at) + held.skip(at + 1));
    }
}

/// What is held weighs what each image in it does, one by one.
pub proof fn law_weights_add_up<A>(held: Seq<Held<A>>, more: Held<A>)
    ensures
        total(Seq::<Held<A>>::empty()) == 0,
        total(held.push(more)) == total(held) + more.decoded.weight(),
    decreases held.len(),
{
    if held.len() > 0 {
        law_weights_add_up(held.skip(1), more);
        assert(held.push(more).skip(1) =~= held.skip(1).push(more));
    } else {
        assert(held.push(more).skip(1) =~= Seq::<Held<A>>::empty());
    }
}

} // verus!
