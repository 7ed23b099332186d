//! The images sitting alongside the one on screen.

use vstd::prelude::*;
use crate::cache::Moment;
use crate::decode;
use crate::decode::is_supported;
use crate::order;
use crate::order::Entry;
use crate::order::Item;
use crate::order::Order;
use crate::order::SortKey;
use crate::order::sort;
use crate::path;
use crate::path::canonical;
use crate::text;

verus! {

/// A text in lower case, as Unicode has it.
pub uninterp spec fn lowercase_of(text: Seq<char>) -> Seq<char>;

/// `str::to_lowercase`: the text in lower case. Of plain ASCII only the letters change.
#[verifier::external_body]
pub(crate) fn lowercase(s: &str) -> (lower: String)
    ensures
        lower@ == lowercase_of(s@),
        (forall|i: int| 0 <= i < s@.len() ==> (#[trigger] s@[i] as int) < 128) ==> lower@
            == text::lowered(s@),
{
    s.to_lowercase()
}

/// What a walk of a directory finds: a path, whether it is a file once links are followed,
/// and what the filesystem says of it.
#[derive(Debug)]
pub struct Found {
    pub path: String,
    pub is_file: bool,
    pub len: u64,
    pub modified: Option<Moment>,
}

/// Whether something found is listed: files that can be opened are.
pub open spec fn is_listed(found: Found) -> bool {
    found.is_file && decode::openable(found.path@)
}

/// What a listing keeps of something found.
pub open spec fn listed(found: Found) -> Item {
    Item {
        path: found.path@,
        sort_name: match path::name_of(found.path@) {
            Some(name) => lowercase_of(name),
            None => Seq::empty(),
        },
        len: found.len,
        modified: found.modified,
    }
}

/// What is listed of a walk, as it was found.
pub open spec fn kept(found: Seq<Found>) -> Seq<Item>
    decreases found.len(),
{
    if found.len() == 0 {
        Seq::empty()
    } else if is_listed(found.last()) {
        kept(found.drop_last()).push(listed(found.last()))
    } else {
        kept(found.drop_last())
    }
}

/// Whether `items` is what a walk found, put in an order. What ties stays as it was found.
pub open spec fn is_listing(items: Seq<Item>, found: Seq<Found>, order: Order) -> bool {
    &&& order::in_order(items, order)
    &&& order::keeps_ties(items, kept(found), order)
    &&& items.to_multiset() == kept(found).to_multiset()
}

/// Every image among what a walk of a directory found, in `order`.
pub fn list(found: Vec<Found>, order: Order) -> (entries: Vec<Entry>)
    ensures
        is_listing(order::items_of(entries@), found@, order),
        entries@.len() == kept(found@).len(),
{
    broadcast use vstd::seq_lib::group_to_multiset_ensures;

    let ghost all = found@;
    let mut entries: Vec<Entry> = Vec::new();
    let mut i: usize = 0;
    while i < found.len()
        invariant
            i <= found@.len(),
            order::items_of(entries@) == kept(found@.take(i as int)),
        decreases found@.len() - i,
    {
        let ghost before = entries@;
        let one = &found[i];
        proof {
            assert(found@.take(i + 1).drop_last() =~= found@.take(i as int));
            assert(found@.take(i + 1).last() == *one);
        }
        if one.is_file && is_supported(one.path.as_str()) {
            let sort_name = match path::file_name(one.path.as_str()) {
                Some(name) => lowercase(name.as_str()),
                None => String::new(),
            };
            let entry = Entry {
                path: one.path.clone(),
                sort_name,
                len: one.len,
                modified: one.modified,
            };
            entries.push(entry);
            assert(order::items_of(entries@) =~= order::items_of(before).push(entry@));
        }
        i += 1;
    }
    assert(found@.take(i as int) =~= found@);
    let sorted = sort(entries, order);
    assert(order::items_of(sorted@).to_multiset().len() == kept(all).to_multiset().len());
    sorted
}

/// The images in one directory, in display order, with a cursor.
#[derive(Debug)]
pub struct Folder {
    entries: Vec<Entry>,
    current: Option<usize>,
    order: Order,
}

/// A folder as mathematics: its images, which of them is current, and their order.
pub struct Listing {
    pub items: Seq<Item>,
    pub current: Option<int>,
    pub order: Order,
}

impl View for Folder {
    type V = Listing;

    closed spec fn view(&self) -> Listing {
        Listing {
            items: order::items_of(self.entries@),
            current: match self.current {
                Some(current) => Some(current as int),
                None => None,
            },
            order: self.order,
        }
    }
}

impl Listing {
    /// No images, to be listed from A to Z.
    pub open spec fn bare() -> Listing {
        Listing {
            items: Seq::empty(),
            current: None,
            order: Order { key: SortKey::Name, descending: false },
        }
    }

    /// The images stand in their order, and the current one is one of them.
    pub open spec fn wf(self) -> bool {
        &&& order::in_order(self.items, self.order)
        &&& self.current matches Some(current) ==> 0 <= current < self.items.len()
    }

    /// The path of the current image.
    pub open spec fn showing(self) -> Option<Seq<char>> {
        match self.current {
            Some(current) => Some(self.items[current].path),
            None => None,
        }
    }

    /// This listing with another image current.
    pub open spec fn at(self, current: int) -> Listing {
        Listing { current: Some(current), ..self }
    }
}

/// Where the first of `items` is that has a path, however the path is written, or their
/// number if none has.
pub open spec fn place(items: Seq<Item>, path: Seq<char>) -> int
    decreases items.len(),
{
    if items.len() == 0 {
        0
    } else if path::canonical_of(items[0].path) == path::canonical_of(path) {
        0
    } else {
        1 + place(items.skip(1), path)
    }
}

fn find(entries: &Vec<Entry>, path: &str) -> (at: usize)
    ensures
        at == place(order::items_of(entries@), path@),
        at <= entries@.len(),
{
    let key = canonical(path);
    let mut at: usize = 0;
    let ghost items = order::items_of(entries@);
    assert(items.skip(0) =~= items);
    while at < entries.len()
        invariant
            at <= entries@.len(),
            items == order::items_of(entries@),
            key@ == path::canonical_of(path@),
            place(items, path@) == at + place(items.skip(at as int), path@),
        decreases entries@.len() - at,
    {
        assert(items.skip(at as int)[0] == entries@[at as int]@);
        if canonical(entries[at].path.as_str()) == key {
            return at;
        }
        assert(items.skip(at as int).skip(1) =~= items.skip(at + 1));
        at += 1;
    }
    at
}

/// A path is found where it stands, and nowhere before.
pub proof fn lemma_place(items: Seq<Item>, path: Seq<char>)
    ensures
        0 <= place(items, path) <= items.len(),
        place(items, path) < items.len() ==> path::canonical_of(items[place(items, path)].path)
            == path::canonical_of(path),
        (exists|i: int|
            0 <= i < items.len() && path::canonical_of((#[trigger] items[i]).path)
                == path::canonical_of(path)) ==> place(items, path) < items.len(),
    decreases items.len(),
{
    if items.len() > 0 {
        lemma_place(items.skip(1), path);
        if exists|i: int|
            0 <= i < items.len() && path::canonical_of((#[trigger] items[i]).path)
                == path::canonical_of(path) {
            let i = choose|i: int|
                0 <= i < items.len() && path::canonical_of((#[trigger] items[i]).path)
                    == path::canonical_of(path);
            if i > 0 {
                assert(items.skip(1)[i - 1] == items[i]);
            }
        }
    }
}

impl Default for Folder {
    fn default() -> (folder: Self)
        ensures
            folder@ == Listing::bare(),
    {
        let folder = Folder { entries: Vec::new(), current: None, order: Order::default() };
        assert(folder@.items =~= Seq::<Item>::empty());
        folder
    }
}

impl Folder {
    /// The folder that has to be listed to show what `path` sits beside.
    pub fn directory_of(path: &str) -> (folder: Option<String>)
        ensures
            folder is Some == (path::parent_of(path@) is Some),
            folder matches Some(folder) ==> path::parent_of(path@) == Some(folder@),
    {
        path::parent(path)
    }

    /// The listing of the directory that `path` lives in, positioned at `path` itself.
    pub fn containing(path: &str, found: Vec<Found>, order: Order) -> (folder: Self)
        ensures
            folder@.wf(),
            path::parent_of(path@) is None ==> folder@ == Listing::bare(),
            path::parent_of(path@) is Some ==> {
                &&& is_listing(folder@.items, found@, order)
                &&& folder@.order == order
                &&& folder@.current == (if place(folder@.items, path@) < folder@.items.len() {
                    Some(place(folder@.items, path@))
                } else {
                    None
                })
            },
    {
        if path::parent(path).is_none() {
            return Folder::default();
        }
        let entries = list(found, order);
        let at: usize = find(&entries, path);
        let current = if at < entries.len() {
            Some(at)
        } else {
            None
        };
        proof {
            lemma_place(order::items_of(entries@), path@);
        }
        Folder { entries, current, order }
    }

    /// The listing of a directory, positioned at its first image.
    pub fn of_directory(found: Vec<Found>, order: Order) -> (folder: Self)
        ensures
            folder@.wf(),
            is_listing(folder@.items, found@, order),
            folder@.order == order,
            folder@.current == (if folder@.items.len() > 0 {
                Some(0int)
            } else {
                None
            }),
    {
        let entries = list(found, order);
        let current = if entries.len() > 0 {
            Some(0)
        } else {
            None
        };
        Folder { entries, current, order }
    }

    pub fn order(&self) -> (order: Order)
        ensures
            order == self@.order,
    {
        self.order
    }

    /// Orders the listing anew, without moving off the image being looked at.
    pub fn set_order(&mut self, order: Order)
        requires
            old(self)@.wf(),
        ensures
            final(self)@.wf(),
            final(self)@.order == order,
            order::in_order(final(self)@.items, order),
            order::keeps_ties(final(self)@.items, old(self)@.items, order),
            final(self)@.items.to_multiset() == old(self)@.items.to_multiset(),
            order == old(self)@.order ==> *final(self) == *old(self),
            order != old(self)@.order ==> final(self)@.current == (match old(self)@.showing() {
                Some(path) => Some(place(final(self)@.items, path)),
                None => None,
            }),
            final(self)@.items.len() == old(self)@.items.len(),
            final(self)@.current is Some == (old(self)@.current is Some),
            old(self)@.showing() matches Some(path) ==> path::canonical_of(
                final(self)@.showing()->0,
            ) == path::canonical_of(path),
    {
        if order == self.order {
            return;
        }
        let ghost before = self@.items;
        let showing = match self.current {
            Some(current) => Some(self.entries[current].path.clone()),
            None => None,
        };
        let mut entries: Vec<Entry> = Vec::new();
        std::mem::swap(&mut entries, &mut self.entries);
        let sorted = sort(entries, order);
        proof {
            let after = order::items_of(sorted@);
            if showing is Some {
                let at = self.current->0 as int;
                assert(before[at].path == showing->0@);
                lemma_member(before, after, at);
                lemma_place(after, showing->0@);
            }
        }
        self.current = match &showing {
            Some(path) => Some(find(&sorted, path.as_str())),
            None => None,
        };
        self.entries = sorted;
        self.order = order;
    }

    /// The image the cursor is on.
    pub fn current(&self) -> (path: Option<&str>)
        requires
            self@.wf(),
        ensures
            path is Some == (self@.showing() is Some),
            path matches Some(path) ==> self@.showing() == Some(path@),
    {
        match self.current {
            Some(current) => Some(self.entries[current].path.as_str()),
            None => None,
        }
    }

    /// Where the cursor sits, counted from one, and how many images there are.
    pub fn position(&self) -> (position: Option<(usize, usize)>)
        requires
            self@.wf(),
        ensures
            position is Some == (self@.current is Some),
            position matches Some(position) ==> position.0 == self@.current->0 + 1 && position.1
                == self@.items.len(),
    {
        let count: usize = self.entries.len();
        match self.current {
            Some(current) => Some((current + 1, count)),
            None => None,
        }
    }

    pub fn len(&self) -> (count: usize)
        ensures
            count == self@.items.len(),
    {
        self.entries.len()
    }

    pub fn is_empty(&self) -> (empty: bool)
        ensures
            empty == (self@.items.len() == 0),
    {
        self.entries.len() == 0
    }

    /// The path of one image.
    pub fn path_at(&self, index: usize) -> (path: &str)
        requires
            index < self@.items.len(),
        ensures
            path@ == self@.items[index as int].path,
    {
        self.entries[index].path.as_str()
    }
}

/// What is left of images in order is in order.
proof fn lemma_order_survives(items: Seq<Item>, at: int, order: Order)
    requires
        order::in_order(items, order),
        0 <= at < items.len(),
    ensures
        order::in_order(items.remove(at), order),
{
    let left = items.remove(at);
    assert forall|i: int, j: int| 0 <= i < j < left.len() implies order::item_way(
        #[trigger] left[i],
        #[trigger] left[j],
        order,
    ) <= 0 by {
        let before = if i < at {
            i
        } else {
            i + 1
        };
        let after = if j < at {
            j
        } else {
            j + 1
        };
        assert(left[i] == items[before] && left[j] == items[after]);
    }
}

/// What a list holds, any list of the same things holds.
proof fn lemma_member(one: Seq<Item>, other: Seq<Item>, at: int)
    requires
        0 <= at < one.len(),
        one.to_multiset() == other.to_multiset(),
    ensures
        exists|i: int| 0 <= i < other.len() && other[i] == one[at],
{
    broadcast use vstd::seq_lib::group_to_multiset_ensures;

    assert(one.contains(one[at]));
    assert(other.to_multiset().contains(one[at]));
}

/// Where a step forward from `at` leads among `count` images: on, and from the last to the
/// first.
pub open spec fn after(at: int, count: int) -> int {
    if at + 1 < count {
        at + 1
    } else {
        0
    }
}

/// Where a step back leads.
pub open spec fn before(at: int, count: int) -> int {
    if at > 0 {
        at - 1
    } else {
        count - 1
    }
}

impl Folder {
    fn step(&mut self, forward: bool) -> (path: Option<String>)
        requires
            old(self)@.wf(),
        ensures
            final(self)@.wf(),
            path is Some == (old(self)@.current is Some),
            match old(self)@.current {
                None => final(self)@ == old(self)@,
                Some(current) => {
                    &&& final(self)@ == old(self)@.at(
                        if forward {
                            after(current, old(self)@.items.len() as int)
                        } else {
                            before(current, old(self)@.items.len() as int)
                        },
                    )
                    &&& final(self)@.showing() == Some(path->0@)
                },
            },
    {
        let count: usize = self.entries.len();
        match self.current {
            None => None,
            Some(current) => {
                let next: usize = if forward {
                    if current + 1 < count {
                        current + 1
                    } else {
                        0
                    }
                } else if current > 0 {
                    current - 1
                } else {
                    count - 1
                };
                self.current = Some(next);
                Some(self.entries[next].path.clone())
            },
        }
    }

    /// Steps forward, from the last image to the first.
    pub fn next_image(&mut self) -> (path: Option<String>)
        requires
            old(self)@.wf(),
        ensures
            final(self)@.wf(),
            path is Some == (old(self)@.current is Some),
            match old(self)@.current {
                None => final(self)@ == old(self)@,
                Some(current) => {
                    &&& final(self)@ == old(self)@.at(after(current, old(self)@.items.len() as int))
                    &&& final(self)@.showing() == Some(path->0@)
                },
            },
    {
        self.step(true)
    }

    /// Steps back, from the first image to the last.
    pub fn prev_image(&mut self) -> (path: Option<String>)
        requires
            old(self)@.wf(),
        ensures
            final(self)@.wf(),
            path is Some == (old(self)@.current is Some),
            match old(self)@.current {
                None => final(self)@ == old(self)@,
                Some(current) => {
                    &&& final(self)@ == old(self)@.at(
                        before(current, old(self)@.items.len() as int),
                    )
                    &&& final(self)@.showing() == Some(path->0@)
                },
            },
    {
        self.step(false)
    }

    /// Drops `path` from the listing and goes to what should be shown in its place: the
    /// next image along, or none if that was the last one.
    pub fn remove(&mut self, path: &str) -> (next: Option<String>)
        requires
            old(self)@.wf(),
        ensures
            final(self)@.wf(),
            final(self)@.order == old(self)@.order,
            ({
                let at = place(old(self)@.items, path@);
                let count = old(self)@.items.len();
                if at >= count {
                    next is None && final(self)@ == old(self)@
                } else {
                    let left = old(self)@.items.remove(at);
                    &&& final(self)@.items == left
                    &&& final(self)@.current == (if count == 1 {
                        None
                    } else if at + 1 == count {
                        Some(0)
                    } else {
                        Some(at)
                    })
                    &&& next is Some == (count > 1)
                    &&& next matches Some(next) ==> final(self)@.showing() == Some(next@)
                }
            }),
    {
        let at: usize = find(&self.entries, path);
        if at >= self.entries.len() {
            return None;
        }
        let ghost items = self@.items;
        self.entries.remove(at);
        assert(order::items_of(self.entries@) =~= items.remove(at as int));
        proof {
            lemma_order_survives(items, at as int, self.order);
        }
        if self.entries.len() == 0 {
            self.current = None;
            return None;
        }
        let next: usize = if at < self.entries.len() {
            at
        } else {
            0
        };
        self.current = Some(next);
        Some(self.entries[next].path.clone())
    }
}

/// Adds an index to a list of them unless it is there or is the current one.
pub open spec fn with_new(indices: Seq<int>, index: int, current: int) -> Seq<int> {
    if index == current || indices.contains(index) {
        indices
    } else {
        indices.push(index)
    }
}

/// The images around the current one, nearest first and forward before back, wrapping at
/// the ends.
pub open spec fn around(current: int, count: int, radius: int) -> Seq<int>
    decreases radius,
{
    if radius <= 0 {
        Seq::empty()
    } else {
        with_new(
            with_new(around(current, count, radius - 1), (current + radius) % count, current),
            (current - radius) % count,
            current,
        )
    }
}

fn push_new(indices: &mut Vec<usize>, index: usize, current: usize)
    ensures
        final(indices)@.map_values(|i: usize| i as int) == with_new(
            old(indices)@.map_values(|i: usize| i as int),
            index as int,
            current as int,
        ),
        forall|k: int|
            0 <= k < final(indices)@.len() ==> #[trigger] final(indices)@[k] == index || old(
                indices,
            )@.contains(final(indices)@[k]),
{
    let ghost held = indices@.map_values(|i: usize| i as int);
    if index == current {
        return;
    }
    let mut k: usize = 0;
    while k < indices.len()
        invariant
            k <= indices@.len(),
            *indices == *old(indices),
            held == indices@.map_values(|i: usize| i as int),
            forall|j: int| 0 <= j < k ==> indices@[j] != index,
        decreases indices@.len() - k,
    {
        if indices[k] == index {
            assert(held[k as int] == index as int);
            return;
        }
        k += 1;
    }
    assert(!held.contains(index as int));
    indices.push(index);
    assert(indices@.map_values(|i: usize| i as int) =~= held.push(index as int));
}

impl Folder {
    /// The images either side of the cursor, nearest first and forward before back.
    /// Wraps the way stepping does, and never names the current image or one twice.
    pub fn neighbours(&self, radius: usize) -> (paths: Vec<String>)
        requires
            self@.wf(),
            radius <= isize::MAX,
        ensures
            match self@.current {
                None => paths@.len() == 0,
                Some(current) => {
                    let indices = around(current, self@.items.len() as int, radius as int);
                    &&& paths@.len() == indices.len()
                    &&& forall|i: int|
                        0 <= i < paths@.len() ==> (#[trigger] paths@[i])@
                            == self@.items[indices[i]].path
                },
            },
    {
        let current: usize = match self.current {
            Some(current) => current,
            None => return Vec::new(),
        };
        let count: usize = self.entries.len();
        let mut indices: Vec<usize> = Vec::new();
        let mut forward: usize = current;
        let mut back: usize = current;
        let mut distance: usize = 0;
        proof {
            vstd::arithmetic::div_mod::lemma_small_mod(current as nat, count as nat);
        }
        assert(indices@.map_values(|i: usize| i as int) =~= around(
            current as int,
            count as int,
            0,
        ));
        while distance < radius
            invariant
                distance <= radius,
                current < count,
                forward < count,
                back < count,
                forward == (current + distance) % count as int,
                back == (current - distance) % count as int,
                indices@.map_values(|i: usize| i as int) == around(
                    current as int,
                    count as int,
                    distance as int,
                ),
                forall|k: int| 0 <= k < indices@.len() ==> #[trigger] indices@[k] < count,
            decreases radius - distance,
        {
            proof {
                lemma_wrap_on(current + distance, count as int);
                lemma_wrap_back(current - distance, count as int);
            }
            distance += 1;
            forward = if forward + 1 < count {
                forward + 1
            } else {
                0
            };
            back = if back > 0 {
                back - 1
            } else {
                count - 1
            };
            push_new(&mut indices, forward, current);
            push_new(&mut indices, back, current);
        }
        let mut paths: Vec<String> = Vec::new();
        let mut i: usize = 0;
        while i < indices.len()
            invariant
                i <= indices@.len(),
                count == self.entries@.len(),
                forall|k: int| 0 <= k < indices@.len() ==> #[trigger] indices@[k] < count,
                paths@.len() == i,
                forall|k: int|
                    0 <= k < i ==> (#[trigger] paths@[k])@ == self.entries@[indices@[k] as int]@.path,
            decreases indices@.len() - i,
        {
            paths.push(self.entries[indices[i]].path.clone());
            i += 1;
        }
        proof {
            let listed = around(current as int, count as int, radius as int);
            assert forall|k: int| 0 <= k < paths@.len() implies (#[trigger] paths@[k])@
                == self@.items[listed[k]].path by {
                assert(indices@.map_values(|i: usize| i as int)[k] == indices@[k] as int);
            }
        }
        paths
    }
}

/// One on from a place, taken round.
proof fn lemma_wrap_on(at: int, count: int)
    requires
        count > 0,
    ensures
        (at + 1) % count == (if at % count + 1 < count {
            at % count + 1
        } else {
            0
        }),
{
    vstd::arithmetic::div_mod::lemma_add_mod_noop(at, 1, count);
    if at % count + 1 < count {
        if count > 1 {
            vstd::arithmetic::div_mod::lemma_small_mod((at % count + 1) as nat, count as nat);
            vstd::arithmetic::div_mod::lemma_small_mod(1, count as nat);
        }
    } else {
        assert(at % count == count - 1);
        if count > 1 {
            vstd::arithmetic::div_mod::lemma_small_mod(1, count as nat);
            vstd::arithmetic::div_mod::lemma_mod_self_0(count);
        } else {
            assert(count == 1);
        }
    }
}

/// One back from a place, taken round.
proof fn lemma_wrap_back(at: int, count: int)
    requires
        count > 0,
    ensures
        (at - 1) % count == (if at % count > 0 {
            at % count - 1
        } else {
            count - 1
        }),
{
    lemma_wrap_on(at - 1, count);
}

/// A step forward and a step back undo each other, from wherever the cursor stands.
pub proof fn law_stepping_retraces(current: int, count: int)
    requires
        0 <= current < count,
    ensures
        before(after(current, count), count) == current,
        after(before(current, count), count) == current,
{
}

/// Neighbours never repeat an image nor name the current one, and none is made up.
pub proof fn law_neighbours_are_others(current: int, count: int, radius: int)
    requires
        0 <= current < count,
    ensures
        forall|i: int|
            0 <= i < around(current, count, radius).len() ==> 0 <= #[trigger] around(
                current,
                count,
                radius,
            )[i] < count,
        !around(current, count, radius).contains(current),
        around(current, count, radius).no_duplicates(),
    decreases radius,
{
    if radius > 0 {
        law_neighbours_are_others(current, count, radius - 1);
        vstd::arithmetic::div_mod::lemma_mod_bound(current + radius, count);
        vstd::arithmetic::div_mod::lemma_mod_bound(current - radius, count);
    }
}

/// A wider circle starts with the narrower one: what is nearer comes first.
pub proof fn law_nearer_neighbours_come_first(current: int, count: int, near: int, far: int)
    requires
        0 <= near <= far,
    ensures
        around(current, count, near).len() <= around(current, count, far).len(),
        around(current, count, far).take(around(current, count, near).len() as int) == around(
            current,
            count,
            near,
        ),
    decreases far - near,
{
    let small = around(current, count, near);
    if near < far {
        law_nearer_neighbours_come_first(current, count, near, far - 1);
        let shorter = around(current, count, far - 1);
        let longer = around(current, count, far);
        assert(longer.take(shorter.len() as int) =~= shorter);
        assert(longer.take(small.len() as int) =~= shorter.take(small.len() as int));
    } else {
        assert(small.take(small.len() as int) =~= small);
    }
}

/// The next image is the one behind, and behind the last the first; the one before is the one
/// in front, and in front of the first the last.
pub proof fn law_stepping_goes_round(at: int, count: int)
    requires
        0 <= at < count,
    ensures
        at + 1 < count ==> after(at, count) == at + 1,
        at + 1 == count ==> after(at, count) == 0,
        at > 0 ==> before(at, count) == at - 1,
        at == 0 ==> before(at, count) == count - 1,
{
}

/// What is listed is every file that can be opened, once each and as it was found, and nothing
/// else.
pub proof fn law_every_image_is_listed(found: Seq<Found>)
    ensures
        kept(found) == found.filter(
            |one: Found| one.is_file && decode::openable(one.path@),
        ).map_values(|one: Found| listed(one)),
    decreases found.len(),
{
    reveal(Seq::filter);
    let wanted = |one: Found| one.is_file && decode::openable(one.path@);
    if found.len() > 0 {
        law_every_image_is_listed(found.drop_last());
        let before = found.drop_last().filter(wanted);
        assert(before.push(found.last()).map_values(|one: Found| listed(one)) =~= before.map_values(
            |one: Found| listed(one),
        ).push(listed(found.last())));
    }
    assert(kept(found) =~= found.filter(wanted).map_values(|one: Found| listed(one)));
}

/// An image is listed by its path, with its size and time, and is ordered by its name in lower
/// case, without its folder.
pub proof fn law_an_image_is_ordered_by_its_name(found: Found)
    ensures
        listed(found).path == found.path@,
        listed(found).len == found.len,
        listed(found).modified == found.modified,
        path::name_of(found.path@) matches Some(name) ==> listed(found).sort_name == lowercase_of(
            name,
        ),
{
}

/// An image is found by its path however that is written, and at the first place if there are
/// several.
pub proof fn law_an_image_is_found_by_its_path(items: Seq<Item>, path: Seq<char>)
    ensures
        0 <= place(items, path) <= items.len(),
        place(items, path) < items.len() ==> path::canonical_of(items[place(items, path)].path)
            == path::canonical_of(path),
        forall|i: int|
            0 <= i < place(items, path) ==> path::canonical_of((#[trigger] items[i]).path)
                != path::canonical_of(path),
    decreases items.len(),
{
    if items.len() > 0 && path::canonical_of(items[0].path) != path::canonical_of(path) {
        law_an_image_is_found_by_its_path(items.skip(1), path);
        assert forall|i: int| 0 <= i < place(items, path) implies path::canonical_of(
            (#[trigger] items[i]).path,
        ) != path::canonical_of(path) by {
            if i > 0 {
                assert(items.skip(1)[i - 1] == items[i]);
            }
        }
    }
}

/// The neighbours of an image are those up to so many steps away, the nearest first, and of two
/// as near the one ahead.
pub proof fn law_neighbours_come_from_both_sides(current: int, count: int, radius: int, k: int)
    requires
        0 <= current < count,
        0 <= radius,
        2 * radius < count,
        1 <= k <= radius,
    ensures
        around(current, count, radius).len() == 2 * radius,
        around(current, count, radius)[2 * k - 2] == (if current + k < count {
            current + k
        } else {
            current + k - count
        }),
        around(current, count, radius)[2 * k - 1] == (if current - k >= 0 {
            current - k
        } else {
            current - k + count
        }),
{
    lemma_around(current, count, radius);
    lemma_round(current, count, k);
}

proof fn lemma_round(current: int, count: int, k: int)
    requires
        0 <= current < count,
        0 <= k < count,
    ensures
        (current + k) % count == (if current + k < count { current + k } else { current + k
            - count }),
        (current - k) % count == (if current - k >= 0 { current - k } else { current - k + count }),
{
    if current + k < count {
        vstd::arithmetic::div_mod::lemma_small_mod((current + k) as nat, count as nat);
    } else {
        vstd::arithmetic::div_mod::lemma_fundamental_div_mod_converse(
            current + k,
            count,
            1,
            current + k - count,
        );
    }
    if current - k >= 0 {
        vstd::arithmetic::div_mod::lemma_small_mod((current - k) as nat, count as nat);
    } else {
        vstd::arithmetic::div_mod::lemma_fundamental_div_mod_converse(
            current - k,
            count,
            -1,
            current - k + count,
        );
    }
}

proof fn lemma_around(current: int, count: int, radius: int)
    requires
        0 <= current < count,
        0 <= radius,
        2 * radius < count,
    ensures
        around(current, count, radius).len() == 2 * radius,
        forall|k: int|
            1 <= k <= radius ==> around(current, count, radius)[2 * k - 2] == (
            #[trigger] (current + k)) % count && around(current, count, radius)[2 * k - 1] == (
            current - k) % count,
    decreases radius,
{
    if radius > 0 {
        let before = around(current, count, radius - 1);
        lemma_around(current, count, radius - 1);
        lemma_round(current, count, radius);
        let ahead = (current + radius) % count;
        let behind = (current - radius) % count;
        assert(!before.contains(ahead) && !before.contains(behind)) by {
            assert forall|i: int| 0 <= i < before.len() implies before[i] != ahead && before[i]
                != behind by {
                let k = i / 2 + 1;
                lemma_round(current, count, k);
                assert(current + k == current + k);
                assert(before[2 * k - 2] == (current + k) % count);
                assert(i == 2 * k - 2 || i == 2 * k - 1);
            }
        }
        let one = before.push(ahead);
        assert(!one.contains(behind)) by {
            assert forall|i: int| 0 <= i < one.len() implies one[i] != behind by {
                if i < before.len() {
                    assert(before.contains(before[i]));
                }
            }
        }
        let now = around(current, count, radius);
        assert(now == before.push(ahead).push(behind));
        assert forall|k: int| 1 <= k <= radius implies now[2 * k - 2] == (#[trigger] (current + k))
            % count && now[2 * k - 1] == (current - k) % count by {
            if k < radius {
                assert(before[2 * k - 2] == (current + k) % count);
            }
        }
    }
}

/// An empty listing holds nothing, shows nothing and is sorted by name, upwards.
pub proof fn law_an_empty_listing_shows_nothing()
    ensures
        Listing::bare().items.len() == 0,
        Listing::bare().current is None,
        Listing::bare().showing() is None,
        Listing::bare().order == (Order { key: SortKey::Name, descending: false }),
{
}

} // verus!
