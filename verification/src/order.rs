//! What a folder is ordered by, and putting its images in that order.

use vstd::prelude::*;
use crate::cache::Moment;
use crate::collector;
use crate::collector::compare_paths;
use crate::text::chars_of;

verus! {

/// What a listing is ordered by.
#[derive(Debug, Clone, Copy, PartialEq, Eq, Structural)]
pub enum SortKey {
    /// The file name, without regard to case.
    Name,
    /// When the file was last written.
    Modified,
    /// How many bytes it takes on disk.
    Size,
}

impl Default for SortKey {
    fn default() -> (key: Self)
        ensures
            key is Name,
    {
        SortKey::Name
    }
}

impl SortKey {
    /// Every key, in the order a menu should offer them.
    pub fn all() -> (all: [SortKey; 3])
        ensures
            all@ == seq![SortKey::Name, SortKey::Modified, SortKey::Size],
    {
        let all = [SortKey::Name, SortKey::Modified, SortKey::Size];
        assert(all@ =~= seq![SortKey::Name, SortKey::Modified, SortKey::Size]);
        all
    }

    pub fn label(self) -> (label: &'static str)
        ensures
            label@ == (match self {
                SortKey::Name => "Name"@,
                SortKey::Modified => "Date"@,
                SortKey::Size => "Size"@,
            }),
    {
        match self {
            SortKey::Name => "Name",
            SortKey::Modified => "Date",
            SortKey::Size => "Size",
        }
    }
}

/// A sort key and a direction.
#[derive(Debug, Clone, Copy, PartialEq, Eq, Structural)]
pub struct Order {
    pub key: SortKey,
    /// Z first, newest first, largest first.
    pub descending: bool,
}

impl Default for Order {
    /// By name, A to Z.
    fn default() -> (order: Self)
        ensures
            order == (Order { key: SortKey::Name, descending: false }),
    {
        Order { key: SortKey::Name, descending: false }
    }
}

impl Order {
    /// Whether this is the order that listings start in.
    pub open spec fn is_usual(self) -> bool {
        self == (Order { key: SortKey::Name, descending: false })
    }

    pub fn is_default(self) -> (default: bool)
        ensures
            default == self.is_usual(),
    {
        self == (Order { key: SortKey::Name, descending: false })
    }

    /// The order that picking a key in the sort menu leads to: the direction stays.
    pub fn keyed(self, key: SortKey) -> (order: Order)
        ensures
            order == (Order { key, descending: self.descending }),
    {
        Order { key, descending: self.descending }
    }

    /// The same key the other way round.
    pub fn reversed(self) -> (order: Order)
        ensures
            order == (Order { key: self.key, descending: !self.descending }),
    {
        Order { key: self.key, descending: !self.descending }
    }
}

/// One image in a listing, with what it takes to sort it.
#[derive(Debug)]
pub struct Entry {
    pub path: String,
    /// The file name in lower case.
    pub sort_name: String,
    pub len: u64,
    /// Nothing where the filesystem does not say. Sorts before every real time.
    pub modified: Option<Moment>,
}

/// One image in a listing, as mathematics.
pub struct Item {
    pub path: Seq<char>,
    pub sort_name: Seq<char>,
    pub len: u64,
    pub modified: Option<Moment>,
}

impl View for Entry {
    type V = Item;

    open spec fn view(&self) -> Item {
        Item {
            path: self.path@,
            sort_name: self.sort_name@,
            len: self.len,
            modified: self.modified,
        }
    }
}

/// Which of two numbers comes first: below zero the first, above zero the second, zero if
/// they are the same.
pub open spec fn number_way(one: int, other: int) -> int {
    if one < other {
        -1
    } else if one > other {
        1
    } else {
        0
    }
}

/// Which of two texts comes first, character by character. One that the other continues
/// comes first.
pub open spec fn text_way(one: Seq<char>, other: Seq<char>) -> int
    decreases one.len(),
{
    if one.len() == 0 {
        if other.len() == 0 {
            0
        } else {
            -1
        }
    } else if other.len() == 0 {
        1
    } else if one[0] != other[0] {
        number_way(one[0] as int, other[0] as int)
    } else {
        text_way(one.skip(1), other.skip(1))
    }
}

/// Which of two times comes first. A time that is not known comes before all others.
pub open spec fn moment_way(one: Option<Moment>, other: Option<Moment>) -> int {
    match (one, other) {
        (None, None) => 0,
        (None, Some(_)) => -1,
        (Some(_), None) => 1,
        (Some(one), Some(other)) => if one.secs != other.secs {
            number_way(one.secs as int, other.secs as int)
        } else {
            number_way(one.nanos as int, other.nanos as int)
        },
    }
}

/// What the key of an order says of two images.
pub open spec fn key_way(one: Item, other: Item, order: Order) -> int {
    let way = match order.key {
        SortKey::Name => text_way(one.sort_name, other.sort_name),
        SortKey::Modified => moment_way(one.modified, other.modified),
        SortKey::Size => number_way(one.len as int, other.len as int),
    };
    if order.descending {
        -way
    } else {
        way
    }
}

/// Which of two images comes first. Ties of the key are broken by the name, always from A
/// to Z, and then by the whole path, part by part.
pub open spec fn item_way(one: Item, other: Item, order: Order) -> int {
    if key_way(one, other, order) != 0 {
        key_way(one, other, order)
    } else if text_way(one.sort_name, other.sort_name) != 0 {
        text_way(one.sort_name, other.sort_name)
    } else {
        collector::path_way(one.path, other.path)
    }
}

/// Whether a list is in an order.
pub open spec fn in_order(items: Seq<Item>, order: Order) -> bool {
    forall|i: int, j: int|
        0 <= i < j < items.len() ==> item_way(#[trigger] items[i], #[trigger] items[j], order) <= 0
}

/// The images that tie with one, as they stand.
pub open spec fn tied(items: Seq<Item>, with: Item, order: Order) -> Seq<Item> {
    items.filter(|item: Item| item_way(item, with, order) == 0)
}

/// Whether images that tie stand in a list as they do in the one it was made of.
pub open spec fn keeps_ties(items: Seq<Item>, source: Seq<Item>, order: Order) -> bool {
    forall|with: Item| #[trigger] tied(items, with, order) == tied(source, with, order)
}

pub open spec fn items_of(entries: Seq<Entry>) -> Seq<Item> {
    entries.map_values(|entry: Entry| entry@)
}

/// Swapping two texts turns their order round, and only equal ones tie.
proof fn lemma_text_swap(one: Seq<char>, other: Seq<char>)
    ensures
        text_way(one, other) == -text_way(other, one),
        text_way(one, other) == 0 <==> one == other,
    decreases one.len(),
{
    if one.len() > 0 && other.len() > 0 && one[0] == other[0] {
        lemma_text_swap(one.skip(1), other.skip(1));
        if one.skip(1) == other.skip(1) {
            assert forall|i: int| 0 <= i < one.len() implies one[i] == other[i] by {
                if i > 0 {
                    assert(one.skip(1)[i - 1] == other.skip(1)[i - 1]);
                }
            }
            assert(one =~= other);
        }
    } else if one.len() == 0 && other.len() == 0 {
        assert(one =~= other);
    }
}

/// What comes before something that comes before a third comes before that, strictly if
/// either does.
proof fn lemma_text_chain(one: Seq<char>, two: Seq<char>, three: Seq<char>)
    requires
        text_way(one, two) <= 0,
        text_way(two, three) <= 0,
    ensures
        text_way(one, three) <= 0,
        text_way(one, two) < 0 || text_way(two, three) < 0 ==> text_way(one, three) < 0,
    decreases one.len(),
{
    if one.len() > 0 && two.len() > 0 && three.len() > 0 && one[0] == two[0] && two[0] == three[0] {
        lemma_text_chain(one.skip(1), two.skip(1), three.skip(1));
    }
}

proof fn lemma_key_chain(one: Item, two: Item, three: Item, order: Order)
    requires
        key_way(one, two, order) <= 0,
        key_way(two, three, order) <= 0,
    ensures
        key_way(one, three, order) <= 0,
        key_way(one, two, order) < 0 || key_way(two, three, order) < 0 ==> key_way(
            one,
            three,
            order,
        ) < 0,
{
    if order.key is Name {
        lemma_text_swap(one.sort_name, two.sort_name);
        lemma_text_swap(two.sort_name, three.sort_name);
        lemma_text_swap(one.sort_name, three.sort_name);
        if order.descending {
            lemma_text_chain(three.sort_name, two.sort_name, one.sort_name);
        } else {
            lemma_text_chain(one.sort_name, two.sort_name, three.sort_name);
        }
    }
}

/// Of two images one always comes first.
pub proof fn lemma_item_swap(one: Item, other: Item, order: Order)
    ensures
        item_way(one, other, order) == -item_way(other, one, order),
{
    lemma_text_swap(one.sort_name, other.sort_name);
    collector::lemma_path_swap(one.path, other.path);
}

pub proof fn lemma_item_chain(one: Item, two: Item, three: Item, order: Order)
    requires
        item_way(one, two, order) <= 0,
        item_way(two, three, order) <= 0,
    ensures
        item_way(one, three, order) <= 0,
        item_way(one, two, order) < 0 || item_way(two, three, order) < 0 ==> item_way(
            one,
            three,
            order,
        ) < 0,
{
    lemma_key_chain(one, two, three, order);
    if key_way(one, two, order) == 0 && key_way(two, three, order) == 0 {
        assert(key_way(one, three, order) == 0) by {
            lemma_key_swap(one, two, order);
            lemma_key_swap(two, three, order);
            lemma_key_swap(one, three, order);
            lemma_key_chain(three, two, one, order);
        }
        if text_way(one.sort_name, two.sort_name) <= 0 && text_way(two.sort_name, three.sort_name)
            <= 0 {
            lemma_text_chain(one.sort_name, two.sort_name, three.sort_name);
            lemma_text_swap(one.sort_name, two.sort_name);
            lemma_text_swap(two.sort_name, three.sort_name);
            if one.sort_name == two.sort_name && two.sort_name == three.sort_name {
                collector::lemma_path_chain(one.path, two.path, three.path);
                lemma_text_swap(one.sort_name, three.sort_name);
            }
        }
    }
}

proof fn lemma_key_swap(one: Item, other: Item, order: Order)
    ensures
        key_way(one, other, order) == -key_way(other, one, order),
{
    lemma_text_swap(one.sort_name, other.sort_name);
}

fn compare_numbers(one: u64, other: u64) -> (way: i8)
    ensures
        way == number_way(one as int, other as int),
{
    if one < other {
        -1
    } else if one > other {
        1
    } else {
        0
    }
}

fn compare_texts(one: &String, other: &String) -> (way: i8)
    ensures
        way == text_way(one@, other@),
{
    let a = chars_of(one.as_str());
    let b = chars_of(other.as_str());
    let mut i: usize = 0;
    assert(a@.skip(0) =~= a@);
    assert(b@.skip(0) =~= b@);
    while i < a.len() && i < b.len()
        invariant
            i <= a@.len(),
            i <= b@.len(),
            a@ == one@,
            b@ == other@,
            text_way(a@, b@) == text_way(a@.skip(i as int), b@.skip(i as int)),
        decreases a@.len() - i,
    {
        if a[i] < b[i] {
            return -1;
        }
        if b[i] < a[i] {
            return 1;
        }
        assert(a@.skip(i as int).skip(1) =~= a@.skip(i + 1));
        assert(b@.skip(i as int).skip(1) =~= b@.skip(i + 1));
        i += 1;
    }
    if i < b.len() {
        -1
    } else if i < a.len() {
        1
    } else {
        0
    }
}

fn compare_moments(one: &Option<Moment>, other: &Option<Moment>) -> (way: i8)
    ensures
        way == moment_way(*one, *other),
{
    match (one, other) {
        (None, None) => 0,
        (None, Some(_)) => -1,
        (Some(_), None) => 1,
        (Some(one), Some(other)) => if one.secs < other.secs {
            -1
        } else if one.secs > other.secs {
            1
        } else {
            compare_numbers(one.nanos as u64, other.nanos as u64)
        },
    }
}

/// Which of two images comes first in an order.
pub fn compare_entries(one: &Entry, other: &Entry, order: Order) -> (way: i8)
    ensures
        way == item_way(one@, other@, order),
{
    let key: i8 = match order.key {
        SortKey::Name => compare_texts(&one.sort_name, &other.sort_name),
        SortKey::Modified => compare_moments(&one.modified, &other.modified),
        SortKey::Size => compare_numbers(one.len, other.len),
    };
    proof {
        lemma_text_range(one@.sort_name, other@.sort_name);
    }
    if key != 0 {
        return if order.descending {
            -key
        } else {
            key
        };
    }
    let name: i8 = compare_texts(&one.sort_name, &other.sort_name);
    if name != 0 {
        name
    } else {
        compare_paths(one.path.as_str(), other.path.as_str())
    }
}

proof fn lemma_text_range(one: Seq<char>, other: Seq<char>)
    ensures
        -1 <= text_way(one, other) <= 1,
    decreases one.len(),
{
    if one.len() > 0 && other.len() > 0 && one[0] == other[0] {
        lemma_text_range(one.skip(1), other.skip(1));
    }
}

/// Whether nothing in `items` comes after `bound`.
spec fn all_before(items: Seq<Item>, bound: Item, order: Order) -> bool {
    forall|i: int| 0 <= i < items.len() ==> item_way(#[trigger] items[i], bound, order) <= 0
}

/// Whether a list is in an order, back to front.
spec fn in_reverse(items: Seq<Item>, order: Order) -> bool {
    forall|i: int, j: int|
        0 <= i < j < items.len() ==> item_way(#[trigger] items[j], #[trigger] items[i], order) <= 0
}

/// Merges two lists that are in order.
fn merge(left: Vec<Entry>, right: Vec<Entry>, order: Order) -> (merged: Vec<Entry>)
    requires
        in_order(items_of(left@), order),
        in_order(items_of(right@), order),
    ensures
        in_order(items_of(merged@), order),
        items_of(merged@).to_multiset() == items_of(left@).to_multiset().add(
            items_of(right@).to_multiset(),
        ),
        keeps_ties(items_of(merged@), items_of(left@) + items_of(right@), order),
{
    broadcast use vstd::seq_lib::group_to_multiset_ensures;

    let ghost source = items_of(left@) + items_of(right@);
    let mut left = left;
    let mut right = right;
    let ghost all = items_of(left@).to_multiset().add(items_of(right@).to_multiset());
    let mut back: Vec<Entry> = Vec::new();
    assert(items_of(back@).reverse() =~= Seq::<Item>::empty());
    assert(source + Seq::<Item>::empty() =~= source);
    while left.len() > 0 || right.len() > 0
        invariant
            keeps_ties(
                items_of(left@) + items_of(right@) + items_of(back@).reverse(),
                source,
                order,
            ),
            in_order(items_of(left@), order),
            in_order(items_of(right@), order),
            in_reverse(items_of(back@), order),
            back@.len() > 0 ==> all_before(items_of(left@), back@.last()@, order) && all_before(
                items_of(right@),
                back@.last()@,
                order,
            ),
            all =~= items_of(left@).to_multiset().add(items_of(right@).to_multiset()).add(
                items_of(back@).to_multiset(),
            ),
        decreases left@.len() + right@.len(),
    {
        broadcast use vstd::seq_lib::group_to_multiset_ensures;

        let from_left = if right.len() == 0 {
            true
        } else if left.len() == 0 {
            false
        } else {
            compare_entries(&left[left.len() - 1], &right[right.len() - 1], order) > 0
        };
        let ghost l = left@;
        let ghost r = right@;
        let ghost b = back@;
        if from_left {
            assert(items_of(l) =~= items_of(l.drop_last()).push(l.last()@));
            let entry = left.pop().unwrap();
            proof {
                if r.len() > 0 {
                    lemma_item_swap(l.last()@, r.last()@, order);
                }
                lemma_take_last(l, r, b, order);
                lemma_ties_pass(items_of(l), items_of(r), items_of(b), order);
            }
            back.push(entry);
            assert(items_of(back@) =~= items_of(b).push(entry@));
            assert(items_of(left@) =~= items_of(l).drop_last());
            let ghost then = items_of(l) + items_of(r) + items_of(b).reverse();
            let ghost now = items_of(left@) + items_of(right@) + items_of(back@).reverse();
            assert forall|with: Item| #[trigger]
                tied(now, with, order) == tied(source, with, order) by {
                assert(tied(now, with, order) == tied(then, with, order));
            }
        } else {
            assert(items_of(r) =~= items_of(r.drop_last()).push(r.last()@));
            let entry = right.pop().unwrap();
            proof {
                if l.len() > 0 {
                    lemma_item_swap(l.last()@, r.last()@, order);
                }
                lemma_take_last(r, l, b, order);
            }
            back.push(entry);
            assert(items_of(back@) =~= items_of(b).push(entry@));
            assert(items_of(left@) + items_of(right@) + items_of(back@).reverse() =~= items_of(l)
                + items_of(r) + items_of(b).reverse());
        }
    }
    assert(items_of(left@) =~= Seq::<Item>::empty());
    assert(items_of(right@) =~= Seq::<Item>::empty());
    assert(items_of(left@) + items_of(right@) + items_of(back@).reverse() =~= items_of(
        back@,
    ).reverse());
    reverse(back, order)
}

/// The last image of a list can pass a list that it comes after.
proof fn lemma_ties_pass(from: Seq<Item>, other: Seq<Item>, back: Seq<Item>, order: Order)
    requires
        from.len() > 0,
        in_order(other, order),
        other.len() > 0 ==> item_way(other.last(), from.last(), order) < 0,
    ensures
        keeps_ties(
            from.drop_last() + other + back.push(from.last()).reverse(),
            from + other + back.reverse(),
            order,
        ),
{
    let last = from.last();
    let shorter = from.drop_last();
    let longer = back.push(last).reverse();
    assert(from =~= shorter + seq![last]);
    assert(longer =~= seq![last] + back.reverse());
    assert forall|with: Item| #[trigger]
        tied(shorter + other + longer, with, order) == tied(
            from + other + back.reverse(),
            with,
            order,
        ) by {
        let ties = |item: Item| item_way(item, with, order) == 0;
        Seq::filter_distributes_over_add(shorter + other, longer, ties);
        Seq::filter_distributes_over_add(shorter, other, ties);
        Seq::filter_distributes_over_add(seq![last], back.reverse(), ties);
        Seq::filter_distributes_over_add(from + other, back.reverse(), ties);
        Seq::filter_distributes_over_add(from, other, ties);
        Seq::filter_distributes_over_add(shorter, seq![last], ties);
        assert(other.filter(ties).len() == 0 || seq![last].filter(ties).len() == 0) by {
            if ties(last) {
                assert forall|i: int| 0 <= i < other.len() implies !ties(#[trigger] other[i]) by {
                    if i < other.len() - 1 {
                        lemma_item_chain(other[i], other.last(), last, order);
                    }
                    lemma_item_chain(other[i], last, with, order);
                }
                assert(other.all(|item: Item| !ties(item)));
                other.lemma_all_neg_filter_empty(ties);
            } else {
                assert(seq![last].all(|item: Item| !ties(item)));
                seq![last].lemma_all_neg_filter_empty(ties);
            }
        }
        if other.filter(ties).len() == 0 {
            assert(other.filter(ties) =~= Seq::<Item>::empty());
        } else {
            assert(seq![last].filter(ties) =~= Seq::<Item>::empty());
        }
        assert(tied(shorter + other + longer, with, order) =~= tied(
            from + other + back.reverse(),
            with,
            order,
        ));
    }
}

/// The larger of two last images can go behind what was taken already.
proof fn lemma_take_last(from: Seq<Entry>, other: Seq<Entry>, back: Seq<Entry>, order: Order)
    requires
        from.len() > 0,
        in_order(items_of(from), order),
        in_order(items_of(other), order),
        in_reverse(items_of(back), order),
        other.len() > 0 ==> item_way(other.last()@, from.last()@, order) <= 0,
        back.len() > 0 ==> all_before(items_of(from), back.last()@, order) && all_before(
            items_of(other),
            back.last()@,
            order,
        ),
    ensures
        in_order(items_of(from.drop_last()), order),
        in_reverse(items_of(back.push(from.last())), order),
        all_before(items_of(from.drop_last()), from.last()@, order),
        all_before(items_of(other), from.last()@, order),
{
    let last = from.last()@;
    assert(items_of(from)[from.len() - 1] == last);
    let shorter = items_of(from.drop_last());
    assert forall|i: int, j: int| 0 <= i < j < shorter.len() implies item_way(
        #[trigger] shorter[i],
        #[trigger] shorter[j],
        order,
    ) <= 0 by {
        assert(shorter[i] == items_of(from)[i] && shorter[j] == items_of(from)[j]);
    }
    assert forall|i: int| 0 <= i < shorter.len() implies item_way(
        #[trigger] shorter[i],
        last,
        order,
    ) <= 0 by {
        assert(shorter[i] == items_of(from)[i]);
    }
    let others = items_of(other);
    assert forall|i: int| 0 <= i < others.len() implies item_way(#[trigger] others[i], last, order)
        <= 0 by {
        let end = others.len() - 1;
        assert(others[end] == other.last()@);
        if i < end {
            lemma_item_chain(others[i], others[end], last, order);
        }
    }
    let longer = items_of(back.push(from.last()));
    let taken = items_of(back);
    assert forall|i: int, j: int| 0 <= i < j < longer.len() implies item_way(
        #[trigger] longer[j],
        #[trigger] longer[i],
        order,
    ) <= 0 by {
        assert(longer[i] == taken[i]);
        if j < taken.len() {
            assert(longer[j] == taken[j]);
        } else {
            let end = taken.len() - 1;
            assert(taken[end] == back.last()@);
            assert(item_way(last, taken[end], order) <= 0);
            if i < end {
                lemma_item_chain(last, taken[end], taken[i], order);
            }
        }
    }
}

/// Turns a list round.
fn reverse(back: Vec<Entry>, order: Order) -> (out: Vec<Entry>)
    requires
        in_reverse(items_of(back@), order),
    ensures
        in_order(items_of(out@), order),
        items_of(out@).to_multiset() == items_of(back@).to_multiset(),
        items_of(out@) == items_of(back@).reverse(),
{
    broadcast use vstd::seq_lib::group_to_multiset_ensures;

    let ghost all = back@;
    let mut back = back;
    let mut out: Vec<Entry> = Vec::new();
    while back.len() > 0
        invariant
            back@.len() + out@.len() == all.len(),
            back@ == all.take(back@.len() as int),
            forall|i: int| 0 <= i < out@.len() ==> out@[i] == all[all.len() - 1 - i],
            items_of(all).to_multiset() =~= items_of(back@).to_multiset().add(
                items_of(out@).to_multiset(),
            ),
        decreases back@.len(),
    {
        broadcast use vstd::seq_lib::group_to_multiset_ensures;

        let ghost b = back@;
        let ghost o = out@;
        assert(items_of(b) =~= items_of(b.drop_last()).push(b.last()@));
        let entry = back.pop().unwrap();
        out.push(entry);
        assert(items_of(out@) =~= items_of(o).push(entry@));
        assert(back@ =~= all.take(back@.len() as int));
    }
    assert(items_of(back@) =~= Seq::<Item>::empty());
    proof {
        let items = items_of(out@);
        let source = items_of(all);
        assert forall|i: int, j: int| 0 <= i < j < items.len() implies item_way(
            #[trigger] items[i],
            #[trigger] items[j],
            order,
        ) <= 0 by {
            assert(items[i] == source[all.len() - 1 - i]);
            assert(items[j] == source[all.len() - 1 - j]);
        }
        assert(items =~= source.reverse());
    }
    out
}

/// Puts images in an order. Those that tie stay as they stand.
pub fn sort(entries: Vec<Entry>, order: Order) -> (sorted: Vec<Entry>)
    ensures
        in_order(items_of(sorted@), order),
        items_of(sorted@).to_multiset() == items_of(entries@).to_multiset(),
        sorted@.len() == entries@.len(),
        keeps_ties(items_of(sorted@), items_of(entries@), order),
    decreases entries@.len(),
{
    broadcast use vstd::seq_lib::group_to_multiset_ensures;

    if entries.len() <= 1 {
        return entries;
    }
    let mut left = entries;
    let ghost all = left@;
    let half: usize = left.len() / 2;
    let right = left.split_off(half);
    proof {
        assert(items_of(all) =~= items_of(left@) + items_of(right@));
        vstd::seq_lib::lemma_multiset_commutative(items_of(left@), items_of(right@));
    }
    let ghost first = items_of(left@);
    let ghost second = items_of(right@);
    let left = sort(left, order);
    let right = sort(right, order);
    let ghost one = items_of(left@);
    let ghost other = items_of(right@);
    let sorted = merge(left, right, order);
    proof {
        assert forall|with: Item| #[trigger]
            tied(items_of(sorted@), with, order) == tied(items_of(all), with, order) by {
            let ties = |item: Item| item_way(item, with, order) == 0;
            Seq::filter_distributes_over_add(first, second, ties);
            Seq::filter_distributes_over_add(one, other, ties);
            assert(tied(one, with, order) == tied(first, with, order));
            assert(tied(other, with, order) == tied(second, with, order));
        }
        assert(items_of(sorted@).to_multiset().len() == items_of(all).to_multiset().len());
    }
    sorted
}

/// Images with paths of their own come in one order only, however they were found: any two
/// lists of the same images in the same order are the same list.
pub proof fn law_the_order_is_settled(one: Seq<Item>, other: Seq<Item>, order: Order)
    requires
        in_order(one, order),
        in_order(other, order),
        one.to_multiset() == other.to_multiset(),
        forall|i: int, j: int|
            0 <= i < j < one.len() ==> collector::path_way(
                (#[trigger] one[i]).path,
                (#[trigger] one[j]).path,
            ) != 0,
    ensures
        one == other,
    decreases one.len(),
{
    broadcast use vstd::seq_lib::group_to_multiset_ensures;

    assert(one.len() == one.to_multiset().len());
    assert(other.len() == other.to_multiset().len());
    if one.len() > 0 {
        let a = one[0];
        let b = other[0];
        assert(one.contains(a) && other.contains(b));
        assert(other.to_multiset().contains(a) && one.to_multiset().contains(b));
        let i = choose|i: int| 0 <= i < one.len() && one[i] == b;
        let j = choose|j: int| 0 <= j < other.len() && other[j] == a;
        lemma_item_swap(a, b, order);
        collector::lemma_path_swap(a.path, b.path);
        lemma_item_self(a, order);
        assert(item_way(a, b, order) <= 0) by {
            if i > 0 {
                assert(item_way(one[0], one[i], order) <= 0);
            }
        }
        assert(item_way(b, a, order) <= 0) by {
            if j > 0 {
                assert(item_way(other[0], other[j], order) <= 0);
            }
        }
        assert(collector::path_way(a.path, b.path) == 0);
        assert(i == 0);
        let rest = one.skip(1);
        let others = other.skip(1);
        assert(one =~= seq![a] + rest);
        assert(other =~= seq![a] + others);
        assert(rest.to_multiset() =~= others.to_multiset()) by {
            vstd::seq_lib::lemma_multiset_commutative(seq![a], rest);
            vstd::seq_lib::lemma_multiset_commutative(seq![a], others);
            let head = seq![a].to_multiset();
            assert forall|x: Item| rest.to_multiset().count(x) == others.to_multiset().count(x) by {
                assert(one.to_multiset().count(x) == head.count(x) + rest.to_multiset().count(x));
                assert(other.to_multiset().count(x) == head.count(x) + others.to_multiset().count(
                    x,
                ));
            }
        }
        assert forall|i: int, j: int| 0 <= i < j < rest.len() implies item_way(
            #[trigger] rest[i],
            #[trigger] rest[j],
            order,
        ) <= 0 by {
            assert(rest[i] == one[i + 1] && rest[j] == one[j + 1]);
        }
        assert forall|i: int, j: int| 0 <= i < j < others.len() implies item_way(
            #[trigger] others[i],
            #[trigger] others[j],
            order,
        ) <= 0 by {
            assert(others[i] == other[i + 1] && others[j] == other[j + 1]);
        }
        assert forall|i: int, j: int| 0 <= i < j < rest.len() implies collector::path_way(
            (#[trigger] rest[i]).path,
            (#[trigger] rest[j]).path,
        ) != 0 by {
            assert(rest[i] == one[i + 1] && rest[j] == one[j + 1]);
        }
        law_the_order_is_settled(rest, others, order);
    } else {
        assert(one =~= other);
    }
}

/// Sorting has one outcome: any two lists in the same order that keep the ties of one list are
/// the same.
pub proof fn law_sorting_has_one_outcome(
    one: Seq<Item>,
    other: Seq<Item>,
    source: Seq<Item>,
    order: Order,
)
    requires
        in_order(one, order),
        in_order(other, order),
        keeps_ties(one, source, order),
        keeps_ties(other, source, order),
    ensures
        one == other,
{
    assert forall|with: Item| #[trigger] tied(one, with, order) == tied(other, with, order) by {
        assert(tied(other, with, order) == tied(source, with, order));
    }
    lemma_one_outcome(one, other, order);
}

proof fn lemma_one_outcome(one: Seq<Item>, other: Seq<Item>, order: Order)
    requires
        in_order(one, order),
        in_order(other, order),
        keeps_ties(one, other, order),
    ensures
        one == other,
    decreases one.len(),
{
    if one.len() == 0 || other.len() == 0 {
        if one.len() > 0 {
            lemma_first_tie(one, one, order);
            lemma_tie_from(other, one[0], order);
        } else if other.len() > 0 {
            lemma_first_tie(other, other, order);
            lemma_tie_from(one, other[0], order);
        }
        assert(one =~= other);
    } else {
        let a = one[0];
        let b = other[0];
        lemma_first_tie(one, one, order);
        lemma_first_tie(other, other, order);
        lemma_tie_from(other, a, order);
        lemma_tie_from(one, b, order);
        lemma_item_swap(a, b, order);
        assert(tied(one, a, order) == tied(other, a, order));
        assert(tied(one, b, order) == tied(other, b, order));
        lemma_first_tie(other, one, order);
        let rest = one.skip(1);
        let others = other.skip(1);
        assert(one =~= seq![a] + rest);
        assert(other =~= seq![b] + others);
        assert forall|with: Item| #[trigger]
            tied(rest, with, order) == tied(others, with, order) by {
            let ties = |item: Item| item_way(item, with, order) == 0;
            Seq::filter_distributes_over_add(seq![a], rest, ties);
            Seq::filter_distributes_over_add(seq![b], others, ties);
            let head = seq![a].filter(ties);
            assert(tied(one, with, order) == tied(other, with, order));
            assert(rest.filter(ties) =~= tied(one, with, order).skip(head.len() as int));
            assert(others.filter(ties) =~= tied(other, with, order).skip(head.len() as int));
        }
        assert forall|i: int, j: int| 0 <= i < j < rest.len() implies item_way(
            #[trigger] rest[i],
            #[trigger] rest[j],
            order,
        ) <= 0 by {
            assert(rest[i] == one[i + 1] && rest[j] == one[j + 1]);
        }
        assert forall|i: int, j: int| 0 <= i < j < others.len() implies item_way(
            #[trigger] others[i],
            #[trigger] others[j],
            order,
        ) <= 0 by {
            assert(others[i] == other[i + 1] && others[j] == other[j + 1]);
        }
        lemma_one_outcome(rest, others, order);
    }
}

/// The first image of a list that ties with the first of another heads what ties with that.
proof fn lemma_first_tie(items: Seq<Item>, other: Seq<Item>, order: Order)
    requires
        items.len() > 0,
        other.len() > 0,
        items == other || item_way(items[0], other[0], order) == 0,
    ensures
        tied(items, other[0], order).len() > 0,
        tied(items, other[0], order)[0] == items[0],
{
    let ties = |item: Item| item_way(item, other[0], order) == 0;
    lemma_item_self(other[0], order);
    assert(items =~= seq![items[0]] + items.skip(1));
    Seq::filter_distributes_over_add(seq![items[0]], items.skip(1), ties);
    assert(seq![items[0]].filter(ties) =~= seq![items[0]]) by {
        reveal_with_fuel(Seq::filter, 2);
        assert(seq![items[0]].drop_last() =~= Seq::<Item>::empty());
    }
}

/// What ties with an image is no sooner in a list than its first.
proof fn lemma_tie_from(items: Seq<Item>, with: Item, order: Order)
    requires
        in_order(items, order),
        tied(items, with, order).len() > 0,
    ensures
        items.len() > 0,
        item_way(items[0], with, order) <= 0,
{
    let ties = |item: Item| item_way(item, with, order) == 0;
    items.lemma_filter_len(ties);
    if !(item_way(items[0], with, order) <= 0) {
        assert forall|i: int| 0 <= i < items.len() implies !ties(#[trigger] items[i]) by {
            if i > 0 && ties(items[i]) {
                lemma_item_chain(items[0], items[i], with, order);
            }
        }
        assert(items.all(|item: Item| !ties(item)));
        items.lemma_all_neg_filter_empty(ties);
    }
}

proof fn lemma_item_self(item: Item, order: Order)
    ensures
        item_way(item, item, order) == 0,
{
    lemma_text_swap(item.sort_name, item.sort_name);
    collector::lemma_path_swap(item.path, item.path);
}

/// Two texts are ordered by the first character in which they differ, and one that the other
/// continues comes first.
pub proof fn law_texts_are_ordered_by_their_first_difference(
    front: Seq<char>,
    a: char,
    b: char,
    one: Seq<char>,
    other: Seq<char>,
)
    ensures
        (a as u32) < (b as u32) ==> text_way(front + seq![a] + one, front + seq![b] + other) < 0,
        (a as u32) > (b as u32) ==> text_way(front + seq![a] + one, front + seq![b] + other) > 0,
        text_way(front, front + seq![a] + one) < 0,
        text_way(front + seq![a] + one, front) > 0,
        text_way(front, front) == 0,
    decreases front.len(),
{
    let x = front + seq![a] + one;
    let y = front + seq![b] + other;
    if front.len() > 0 {
        law_texts_are_ordered_by_their_first_difference(front.skip(1), a, b, one, other);
        assert(x.skip(1) =~= front.skip(1) + seq![a] + one);
        assert(y.skip(1) =~= front.skip(1) + seq![b] + other);
        assert(x[0] == front[0] && y[0] == front[0]);
    } else {
        assert(x[0] == a && y[0] == b);
    }
}

/// What the sort menu says: by name from A to Z, by date from the oldest, by size from the
/// smallest, each the other way round when descending. Files that tie come by name, from A to Z
/// either way, and files of one name by the parts of their paths. A time that is not known comes
/// before all others.
pub proof fn law_an_order_does_what_the_menu_says(one: Item, other: Item, descending: bool)
    ensures
        ({
            let way = |key: SortKey| item_way(one, other, Order { key, descending });
            let name = text_way(one.sort_name, other.sort_name);
            let tie = if name != 0 {
                name
            } else {
                collector::path_way(one.path, other.path)
            };
            let sooner = match (one.modified, other.modified) {
                (Some(a), Some(b)) => a.secs < b.secs || a.secs == b.secs && a.nanos < b.nanos,
                (None, Some(_)) => true,
                _ => false,
            };
            &&& one.len < other.len ==> if descending {
                way(SortKey::Size) > 0
            } else {
                way(SortKey::Size) < 0
            }
            &&& one.len == other.len ==> way(SortKey::Size) == tie
            &&& sooner ==> if descending {
                way(SortKey::Modified) > 0
            } else {
                way(SortKey::Modified) < 0
            }
            &&& one.modified == other.modified ==> way(SortKey::Modified) == tie
            &&& name < 0 ==> if descending {
                way(SortKey::Name) > 0
            } else {
                way(SortKey::Name) < 0
            }
            &&& one.sort_name == other.sort_name ==> way(SortKey::Name) == collector::path_way(
                one.path,
                other.path,
            )
        }),
{
    lemma_text_swap(one.sort_name, other.sort_name);
}

/// Sorting leaves no two images the wrong way round, and neither adds nor loses one.
pub proof fn law_a_sorted_list_runs_one_way(items: Seq<Item>, order: Order, i: int, j: int)
    requires
        in_order(items, order),
        0 <= i < j < items.len(),
    ensures
        order == (Order { key: SortKey::Size, descending: false }) ==> items[i].len <= items[j].len,
        order == (Order { key: SortKey::Size, descending: true }) ==> items[i].len >= items[j].len,
        order == (Order { key: SortKey::Name, descending: false }) ==> text_way(
            items[i].sort_name,
            items[j].sort_name,
        ) <= 0,
        order == (Order { key: SortKey::Name, descending: true }) ==> text_way(
            items[i].sort_name,
            items[j].sort_name,
        ) >= 0,
{
    assert(item_way(items[i], items[j], order) <= 0);
    lemma_text_swap(items[i].sort_name, items[j].sort_name);
}

} // verus!
