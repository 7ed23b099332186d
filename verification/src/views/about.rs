//! What the program says it can open.

use vstd::prelude::*;
use crate::decode::SUPPORTED_EXTENSIONS;
use crate::order;
use crate::order::{Entry, Item, Order};

verus! {

/// An extension as something to put in order.
pub open spec fn listed(extension: Seq<char>) -> Item {
    Item { path: extension, sort_name: extension, len: 0, modified: None }
}

/// The extensions that can be opened.
pub open spec fn openable() -> Seq<Item> {
    Seq::new(15, |i: int| listed(SUPPORTED_EXTENSIONS[i]@))
}

/// All that can be opened, from A to Z.
pub open spec fn is_alphabetical(items: Seq<Item>) -> bool {
    &&& items.to_multiset() == openable().to_multiset()
    &&& order::in_order(items, Order { key: order::SortKey::Name, descending: false })
}

/// The first `n` names in one line.
pub open spec fn in_a_line(items: Seq<Item>, n: int) -> Seq<char>
    decreases n,
{
    if n <= 0 {
        Seq::empty()
    } else if n == 1 {
        items[0].path
    } else {
        in_a_line(items, n - 1) + ", "@ + items[n - 1].path
    }
}

pub open spec fn is_the_line(line: Seq<char>, items: Seq<Item>) -> bool {
    is_alphabetical(items) && line == in_a_line(items, items.len() as int)
}

/// The supported extensions as one readable line.
pub fn formats() -> (line: String)
    ensures
        exists|items: Seq<Item>| is_the_line(line@, items),
{
    let mut entries: Vec<Entry> = Vec::new();
    let mut i: usize = 0;
    while i < 15
        invariant
            i <= 15,
            entries@.len() == i,
            forall|k: int| 0 <= k < i ==> (#[trigger] entries@[k])@ == openable()[k],
        decreases 15 - i,
    {
        let name: &str = SUPPORTED_EXTENSIONS[i];
        entries.push(
            Entry {
                path: name.to_owned(),
                sort_name: name.to_owned(),
                len: 0,
                modified: None,
            },
        );
        i += 1;
    }
    assert(order::items_of(entries@) =~= openable());
    let sorted = order::sort(entries, Order::default());
    let ghost items = order::items_of(sorted@);
    let mut line = "".to_owned();
    let mut n: usize = 0;
    proof {
        reveal_strlit("");
    }
    assert(line@ =~= in_a_line(items, 0));
    while n < sorted.len()
        invariant
            n <= sorted@.len(),
            items == order::items_of(sorted@),
            line@ == in_a_line(items, n as int),
        decreases sorted@.len() - n,
    {
        if n > 0 {
            line.append(", ");
        }
        line.append(sorted[n].path.as_str());
        n += 1;
        assert(items[n - 1].path == sorted@[n - 1].path@);
        assert(line@ =~= in_a_line(items, n as int));
    }
    assert(is_the_line(line@, items));
    line
}

/// Every format that can be opened is named in the line.
pub proof fn law_every_format_is_named(items: Seq<Item>, i: int)
    requires
        is_alphabetical(items),
        0 <= i < 15,
    ensures
        items.contains(listed(SUPPORTED_EXTENSIONS[i]@)),
{
    broadcast use vstd::seq_lib::group_to_multiset_ensures;

    let named = listed(SUPPORTED_EXTENSIONS[i]@);
    assert(openable()[i] == named);
    assert(openable().contains(named));
    assert(items.to_multiset().contains(named));
}

/// The line of formats has each word once, with a comma between any two.
pub proof fn law_formats_stand_in_a_line(items: Seq<Item>, n: int)
    requires
        1 <= n < items.len(),
    ensures
        in_a_line(items, 1) == items[0].path,
        in_a_line(items, n + 1) == in_a_line(items, n) + seq![',', ' '] + items[n].path,
{
    reveal_strlit(", ");
    assert(seq![',', ' '] =~= ", "@);
}

} // verus!
