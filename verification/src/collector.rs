//! Gathering a selection of files back into a single conversion.
//!
//! A shell launches one process per selected file. The first owns a pipe and collects;
//! every later one hands its paths over and leaves. What is here is what travels over the
//! pipe, who does what, and what the gathered paths come to.

use vstd::prelude::*;
use crate::path;
use crate::path::Prefix;
use crate::text::chars_of;

verus! {

/// How long to wait for another process before the selection counts as complete, in
/// milliseconds.
pub const STRAGGLER_WAIT: u64 = 500;

/// The longest that gathering may take, in milliseconds.
pub const GATHER_LIMIT: u64 = 10_000;

/// The pipe that a batch talks over. Batches with different keys do not merge.
pub fn pipe_name(key: &str) -> (name: String)
    ensures
        name@ == "\\\\.\\pipe\\imaginer-convert-"@ + key@,
{
    let mut name = "\\\\.\\pipe\\imaginer-convert-".to_owned();
    name.append(key);
    name
}

/// The units of several paths in a row, a zero between each two.
pub open spec fn row_of(paths: Seq<Seq<u16>>, n: int) -> Seq<u16>
    decreases n,
{
    if n <= 0 {
        Seq::empty()
    } else if n == 1 {
        paths[0]
    } else {
        row_of(paths, n - 1) + seq![0u16] + paths[n - 1]
    }
}

/// Units as bytes, the low one first.
pub open spec fn bytes_of(units: Seq<u16>) -> Seq<u8> {
    Seq::new(
        units.len() * 2,
        |i: int|
            if i % 2 == 0 {
                (units[i / 2] % 256) as u8
            } else {
                (units[i / 2] / 256) as u8
            },
    )
}

pub open spec fn wides(paths: Seq<Vec<u16>>) -> Seq<Seq<u16>> {
    paths.map_values(|path: Vec<u16>| path@)
}

/// Paths as they travel: their UTF-16 units, separated by zeros, as bytes.
pub fn encode(paths: &Vec<Vec<u16>>) -> (payload: Vec<u8>)
    ensures
        payload@ == bytes_of(row_of(wides(paths@), paths@.len() as int)),
{
    let ghost all = wides(paths@);
    let mut payload: Vec<u8> = Vec::new();
    let mut i: usize = 0;
    assert(payload@ =~= bytes_of(row_of(all, 0)));
    while i < paths.len()
        invariant
            i <= paths@.len(),
            all == wides(paths@),
            payload@ == bytes_of(row_of(all, i as int)),
        decreases paths@.len() - i,
    {
        let ghost before = row_of(all, i as int);
        if i > 0 {
            payload.push(0);
            payload.push(0);
            assert(payload@ =~= bytes_of(before + seq![0u16]));
        }
        let ghost front = if i > 0 {
            before + seq![0u16]
        } else {
            Seq::<u16>::empty()
        };
        assert(payload@ =~= bytes_of(front));
        let units = &paths[i];
        let mut k: usize = 0;
        assert(front + units@.take(0) =~= front);
        while k < units.len()
            invariant
                k <= units@.len(),
                payload@ == bytes_of(front + units@.take(k as int)),
            decreases units@.len() - k,
        {
            let ghost so_far = front + units@.take(k as int);
            payload.push((units[k] % 256) as u8);
            payload.push((units[k] / 256) as u8);
            k += 1;
            assert(front + units@.take(k as int) =~= so_far.push(units@[k - 1]));
            assert(payload@ =~= bytes_of(front + units@.take(k as int)));
        }
        assert(units@.take(k as int) =~= units@);
        assert(all[i as int] == units@);
        i += 1;
        proof {
            if i == 1 {
                assert(front + units@ =~= row_of(all, 1));
            } else {
                assert(front + units@ == row_of(all, i as int));
            }
        }
    }
    payload
}

/// Bytes as units, the low one first. An odd byte at the end is half a unit and dropped.
pub open spec fn units_of(payload: Seq<u8>) -> Seq<u16> {
    Seq::new(
        payload.len() / 2,
        |i: int| (payload[2 * i] + 256 * payload[2 * i + 1]) as u16,
    )
}

/// The stretches of a row between its zeros that are not empty, the last of them still
/// open, as far as the first `n` units.
pub open spec fn stretches(row: Seq<u16>, n: int) -> (Seq<Seq<u16>>, Seq<u16>)
    decreases n,
{
    if n <= 0 {
        (Seq::empty(), Seq::empty())
    } else {
        let (closed, open) = stretches(row, n - 1);
        if row[n - 1] != 0 {
            (closed, open.push(row[n - 1]))
        } else if open.len() > 0 {
            (closed.push(open), Seq::empty())
        } else {
            (closed, open)
        }
    }
}

/// The paths in a row of units. Nothing between two zeros is no path.
pub open spec fn paths_in(row: Seq<u16>) -> Seq<Seq<u16>> {
    let (closed, open) = stretches(row, row.len() as int);
    if open.len() > 0 {
        closed.push(open)
    } else {
        closed
    }
}

/// Reads paths back out of what travelled.
pub fn decode(payload: &[u8]) -> (paths: Vec<Vec<u16>>)
    ensures
        wides(paths@) == paths_in(units_of(payload@)),
{
    let ghost row = units_of(payload@);
    let mut closed: Vec<Vec<u16>> = Vec::new();
    let mut open: Vec<u16> = Vec::new();
    let length: usize = payload.len();
    let count: usize = length / 2;
    let mut i: usize = 0;
    assert(wides(closed@) =~= Seq::<Seq<u16>>::empty());
    assert(open@ =~= Seq::<u16>::empty());
    while i < count
        invariant
            i <= count,
            length == payload@.len(),
            count == length / 2,
            row == units_of(payload@),
            row.len() == count,
            (wides(closed@), open@) == stretches(row, i as int),
        decreases count - i,
    {
        let unit: u16 = payload[2 * i] as u16 + 256 * payload[2 * i + 1] as u16;
        assert(unit == row[i as int]);
        if unit != 0 {
            open.push(unit);
        } else if open.len() > 0 {
            let ghost before = closed@;
            let ghost done = open@;
            let mut path: Vec<u16> = Vec::new();
            std::mem::swap(&mut path, &mut open);
            closed.push(path);
            assert(wides(closed@) =~= wides(before).push(done));
            assert(open@ =~= Seq::<u16>::empty());
        }
        i += 1;
    }
    if open.len() > 0 {
        let ghost before = closed@;
        let ghost done = open@;
        closed.push(open);
        assert(wides(closed@) =~= wides(before).push(done));
    }
    closed
}

/// Bytes read back as the units they were made of.
proof fn lemma_units_return(units: Seq<u16>)
    ensures
        units_of(bytes_of(units)) == units,
{
    let bytes = bytes_of(units);
    assert forall|i: int| 0 <= i < units.len() implies units_of(bytes)[i] == units[i] by {
        assert((2 * i) / 2 == i && (2 * i) % 2 == 0);
        assert((2 * i + 1) / 2 == i && (2 * i + 1) % 2 == 1);
        assert(units[i] % 256 + 256 * (units[i] / 256) == units[i]);
    }
    assert(units_of(bytes) =~= units);
}

/// Reading the first `n` units of a row does not depend on what follows.
proof fn lemma_stretches_prefix(row: Seq<u16>, more: Seq<u16>, n: int)
    requires
        0 <= n <= row.len(),
    ensures
        stretches(row + more, n) == stretches(row, n),
    decreases n,
{
    if n > 0 {
        lemma_stretches_prefix(row, more, n - 1);
    }
}

/// Units without a zero lengthen the open stretch.
proof fn lemma_stretch_lengthens(row: Seq<u16>, path: Seq<u16>, n: int)
    requires
        0 <= n <= path.len(),
        forall|i: int| 0 <= i < path.len() ==> path[i] != 0,
    ensures
        stretches(row + path, row.len() + n) == (
            stretches(row, row.len() as int).0,
            stretches(row, row.len() as int).1 + path.take(n),
        ),
    decreases n,
{
    let (closed, open) = stretches(row, row.len() as int);
    if n == 0 {
        lemma_stretches_prefix(row, path, row.len() as int);
        assert(open + path.take(0) =~= open);
    } else {
        lemma_stretch_lengthens(row, path, n - 1);
        assert((row + path)[row.len() + n - 1] == path[n - 1]);
        assert((open + path.take(n - 1)).push(path[n - 1]) =~= open + path.take(n));
    }
}

/// Reading a row of paths finds all but the last closed, and the last one open.
proof fn lemma_row_read(paths: Seq<Seq<u16>>, n: int)
    requires
        1 <= n <= paths.len(),
        forall|i: int, j: int|
            0 <= i < paths.len() && 0 <= j < paths[i].len() ==> #[trigger] paths[i][j] != 0,
        forall|i: int| 0 <= i < paths.len() ==> (#[trigger] paths[i]).len() > 0,
    ensures
        stretches(row_of(paths, n), row_of(paths, n).len() as int) == (
            paths.take(n - 1),
            paths[n - 1],
        ),
    decreases n,
{
    let last = paths[n - 1];
    assert forall|i: int| 0 <= i < last.len() implies last[i] != 0 by {
        assert(paths[n - 1][i] != 0);
    }
    if n == 1 {
        let none = Seq::<u16>::empty();
        lemma_stretch_lengthens(none, last, last.len() as int);
        assert(none + last =~= last);
        assert(last.take(last.len() as int) =~= last);
        assert(paths.take(0) =~= Seq::<Seq<u16>>::empty());
    } else {
        lemma_row_read(paths, n - 1);
        let row = row_of(paths, n - 1);
        let ended = row + seq![0u16];
        lemma_stretches_prefix(row, seq![0u16], row.len() as int);
        assert(ended[row.len() as int] == 0);
        assert(stretches(ended, ended.len() as int) == (
            paths.take(n - 2).push(paths[n - 2]),
            Seq::<u16>::empty(),
        ));
        assert(paths.take(n - 2).push(paths[n - 2]) =~= paths.take(n - 1));
        lemma_stretch_lengthens(ended, last, last.len() as int);
        assert(last.take(last.len() as int) =~= last);
        assert(Seq::<u16>::empty() + last =~= last);
    }
}

/// Paths arrive as they were sent, whatever their characters are: a path holds no zero, and
/// none is empty.
pub proof fn law_paths_survive_the_round_trip(paths: Seq<Seq<u16>>)
    requires
        forall|i: int, j: int|
            0 <= i < paths.len() && 0 <= j < paths[i].len() ==> #[trigger] paths[i][j] != 0,
        forall|i: int| 0 <= i < paths.len() ==> (#[trigger] paths[i]).len() > 0,
    ensures
        paths_in(units_of(bytes_of(row_of(paths, paths.len() as int)))) == paths,
{
    let n = paths.len() as int;
    lemma_units_return(row_of(paths, n));
    if n > 0 {
        lemma_row_read(paths, n);
        assert(paths.take(n - 1).push(paths[n - 1]) =~= paths);
    } else {
        assert(paths_in(row_of(paths, 0)) =~= paths);
    }
}

/// What a killed process leaves half written is dropped: an odd byte changes nothing.
pub proof fn law_half_a_unit_is_dropped(payload: Seq<u8>, byte: u8)
    requires
        payload.len() % 2 == 0,
    ensures
        paths_in(units_of(payload.push(byte))) == paths_in(units_of(payload)),
{
    assert(units_of(payload.push(byte)) =~= units_of(payload));
}

/// No path that is read is blank.
pub proof fn law_no_path_is_blank(row: Seq<u16>, i: int)
    requires
        0 <= i < paths_in(row).len(),
    ensures
        paths_in(row)[i].len() > 0,
{
    lemma_closed_are_full(row, row.len() as int);
}

proof fn lemma_closed_are_full(row: Seq<u16>, n: int)
    ensures
        forall|i: int|
            0 <= i < stretches(row, n).0.len() ==> (#[trigger] stretches(row, n).0[i]).len() > 0,
    decreases n,
{
    if n > 0 {
        lemma_closed_are_full(row, n - 1);
        let (closed, open) = stretches(row, n - 1);
        let now = stretches(row, n).0;
        assert forall|i: int| 0 <= i < now.len() implies (#[trigger] now[i]).len() > 0 by {
            if i < closed.len() {
                assert(now[i] == closed[i]);
            }
        }
    }
}

/// Paths in the order of their parts: what a path is compared by.
///
/// First how it starts, and with which name; then its parts from the front, each ended by a
/// zero. A root comes before a dot, that before a step up, and that before every name.
pub open spec fn sort_key(path: Seq<char>) -> Seq<int> {
    seq![rank(path::prefix_of(path))] + path::plain_prefix(path).map_values(|c: char| code(c))
        + seq![0] + (if path::is_rooted(path) {
        seq![1, 0int]
    } else if path::prefix_of(path) is Nothing && path::is_dotted(path) {
        seq![2, 0int]
    } else {
        Seq::empty()
    }) + part_keys(path, path::prefix_len(path))
}

/// Where paths that start in one way come among the others.
pub open spec fn rank(prefix: Prefix) -> int {
    match prefix {
        Prefix::Verbatim => 0,
        Prefix::VerbatimShare => 1,
        Prefix::VerbatimDrive => 2,
        Prefix::Device => 3,
        Prefix::Share => 4,
        Prefix::Drive => 5,
        Prefix::Nothing => 6,
    }
}

/// A character as part of a key: below all others stand the separator and the marks.
pub open spec fn code(c: char) -> int {
    if c == '\\' {
        0
    } else {
        c as int + 4
    }
}

/// The keys of the parts from `at` on.
pub open spec fn part_keys(path: Seq<char>, at: int) -> Seq<int>
    decreases path.len() - at,
{
    if at < 0 || at >= path.len() {
        Seq::empty()
    } else if path::divides(path, path[at]) {
        part_keys(path, at + 1)
    } else {
        proof {
            path::lemma_part_end(path, at + 1);
        }
        let end = path::part_end(path, at);
        let part = path.subrange(at, end);
        if part == seq!['.'] && path::is_verbatim(path) {
            seq![2, 0int] + part_keys(path, end)
        } else if part == seq!['.'] {
            part_keys(path, end)
        } else if part == seq!['.', '.'] {
            seq![3, 0int] + part_keys(path, end)
        } else {
            part.map_values(|c: char| c as int + 4) + seq![0] + part_keys(path, end)
        }
    }
}

/// Whether one key comes before another.
pub open spec fn key_before(one: Seq<int>, other: Seq<int>) -> bool
    decreases one.len(),
{
    if other.len() == 0 {
        false
    } else if one.len() == 0 {
        true
    } else if one[0] != other[0] {
        one[0] < other[0]
    } else {
        key_before(one.skip(1), other.skip(1))
    }
}

pub open spec fn ints(key: Seq<u32>) -> Seq<int> {
    key.map_values(|n: u32| n as int)
}

fn is_earlier(one: &Vec<u32>, other: &Vec<u32>) -> (earlier: bool)
    ensures
        earlier == key_before(ints(one@), ints(other@)),
{
    let ghost a = ints(one@);
    let ghost b = ints(other@);
    let mut i: usize = 0;
    assert(a.skip(0) =~= a);
    assert(b.skip(0) =~= b);
    while i < one.len() && i < other.len()
        invariant
            i <= one@.len(),
            i <= other@.len(),
            a == ints(one@),
            b == ints(other@),
            key_before(a, b) == key_before(a.skip(i as int), b.skip(i as int)),
        decreases one@.len() - i,
    {
        assert(a.skip(i as int)[0] == one@[i as int]);
        assert(b.skip(i as int)[0] == other@[i as int]);
        if one[i] != other[i] {
            return one[i] < other[i];
        }
        assert(a.skip(i as int).skip(1) =~= a.skip(i + 1));
        assert(b.skip(i as int).skip(1) =~= b.skip(i + 1));
        i += 1;
    }
    i < other.len()
}

fn same_key(one: &Vec<u32>, other: &Vec<u32>) -> (same: bool)
    ensures
        same == (ints(one@) == ints(other@)),
{
    if one.len() != other.len() {
        assert(ints(one@).len() != ints(other@).len());
        return false;
    }
    let mut i: usize = 0;
    while i < one.len()
        invariant
            i <= one@.len() == other@.len(),
            forall|k: int| 0 <= k < i ==> one@[k] == other@[k],
        decreases one@.len() - i,
    {
        if one[i] != other[i] {
            assert(ints(one@)[i as int] != ints(other@)[i as int]);
            return false;
        }
        i += 1;
    }
    assert(ints(one@) =~= ints(other@));
    true
}

fn shifted(c: char) -> (n: u32)
    ensures
        n == c as int + 4,
{
    let n: u32 = c as u32;
    n + 4
}

fn push_part_keys(path: &Vec<char>, from: usize, out: &mut Vec<u32>)
    requires
        from <= path@.len(),
    ensures
        ints(final(out)@) == ints(old(out)@) + part_keys(path@, from as int),
{
    let verbatim = path::starts_verbatim(path);
    let mut at: usize = from;
    let ghost before = ints(out@);
    while at < path.len()
        invariant
            verbatim == path::is_verbatim(path@),
            from <= at <= path@.len(),
            ints(out@) + part_keys(path@, at as int) == before + part_keys(path@, from as int),
        decreases path@.len() - at,
    {
        if path::divides_parts(verbatim, path[at]) {
            at += 1;
        } else {
            proof {
                path::lemma_part_end(path@, at + 1);
            }
            let end: usize = path::end_of_part(path, verbatim, at);
            let ghost part = path@.subrange(at as int, end as int);
            let ghost rest = part_keys(path@, end as int);
            let ghost so_far = ints(out@);
            if end - at == 1 && path[at] == '.' {
                assert(part =~= seq!['.']);
                if verbatim {
                    out.push(2);
                    out.push(0);
                    assert(ints(out@) =~= so_far + seq![2, 0int]);
                    assert(ints(out@) + rest =~= so_far + (seq![2, 0int] + rest));
                }
            } else if end - at == 2 && path[at] == '.' && path[at + 1] == '.' {
                assert(part =~= seq!['.', '.']);
                out.push(3);
                out.push(0);
                assert(ints(out@) =~= so_far + seq![3, 0int]);
                assert(ints(out@) + rest =~= so_far + (seq![3, 0int] + rest));
            } else {
                assert(part.len() == 1 ==> part[0] != '.');
                assert(part.len() == 2 ==> part[0] != '.' || part[1] != '.');
                let ghost letters = part.map_values(|c: char| c as int + 4);
                let mut i: usize = at;
                assert(so_far + letters.take(0) =~= so_far);
                while i < end
                    invariant
                        at <= i <= end <= path@.len(),
                        part == path@.subrange(at as int, end as int),
                        letters == part.map_values(|c: char| c as int + 4),
                        ints(out@) == so_far + letters.take(i - at),
                    decreases end - i,
                {
                    let ghost now = out@;
                    out.push(shifted(path[i]));
                    i += 1;
                    assert(ints(out@) =~= ints(now).push(letters[i - 1 - at]));
                    assert(ints(out@) =~= so_far + letters.take(i - at));
                }
                let ghost now = out@;
                out.push(0);
                assert(letters.take(end - at) =~= letters);
                assert(ints(out@) =~= ints(now).push(0));
                assert(ints(out@) + rest =~= so_far + (letters + seq![0] + rest));
            }
            at = end;
        }
    }
    assert(ints(out@) + part_keys(path@, at as int) =~= ints(out@));
}

fn key_of(path: &str) -> (key: Vec<u32>)
    ensures
        ints(key@) == sort_key(path@),
{
    let path = chars_of(path);
    let (prefix, length) = path::start_of(&path);
    let ghost letters = path::plain_prefix(path@).map_values(|c: char| code(c));
    let place: u32 = match prefix {
        Prefix::Verbatim => 0,
        Prefix::VerbatimShare => 1,
        Prefix::VerbatimDrive => 2,
        Prefix::Device => 3,
        Prefix::Share => 4,
        Prefix::Drive => 5,
        Prefix::Nothing => 6,
    };
    let mut key: Vec<u32> = Vec::new();
    key.push(place);
    let ghost first = seq![rank(prefix)];
    assert(ints(key@) =~= first + letters.take(0));
    let mut i: usize = 0;
    while i < length
        invariant
            i <= length <= path@.len(),
            prefix == path::prefix_of(path@),
            length == path::prefix_len(path@),
            letters == path::plain_prefix(path@).map_values(|c: char| code(c)),
            ints(key@) == first + letters.take(i as int),
        decreases length - i,
    {
        let ghost now = key@;
        let c = path::plain_char(&path, prefix, i);
        if c == '\\' {
            key.push(0);
        } else {
            key.push(shifted(c));
        }
        i += 1;
        assert(letters[i - 1] == code(c));
        assert(ints(key@) =~= ints(now).push(letters[i - 1]));
        assert(ints(key@) =~= first + letters.take(i as int));
    }
    assert(letters.take(length as int) =~= letters);
    let ghost front = ints(key@);
    key.push(0);
    assert(ints(key@) =~= front + seq![0]);
    let ghost front = ints(key@);
    if path::starts_at_root(&path, prefix, length) {
        key.push(1);
        key.push(0);
        assert(ints(key@) =~= front + seq![1, 0int]);
    } else if prefix == Prefix::Nothing && path.len() >= 1 && path[0] == '.' && (path.len() == 1
        || path::separates(path[1])) {
        key.push(2);
        key.push(0);
        assert(ints(key@) =~= front + seq![2, 0int]);
    } else {
        assert(ints(key@) =~= front + Seq::<int>::empty());
    }
    push_part_keys(&path, length, &mut key);
    key
}

/// No key comes before itself, and of two different ones one comes before the other.
proof fn lemma_key_total(one: Seq<int>, other: Seq<int>)
    ensures
        !(key_before(one, other) && key_before(other, one)),
        one != other ==> key_before(one, other) || key_before(other, one),
        one == other ==> !key_before(one, other),
    decreases one.len(),
{
    if one.len() > 0 && other.len() > 0 && one[0] == other[0] {
        lemma_key_total(one.skip(1), other.skip(1));
        if one.skip(1) == other.skip(1) {
            assert forall|i: int| 0 <= i < one.len() implies one[i] == other[i] by {
                if i > 0 {
                    assert(one.skip(1)[i - 1] == other.skip(1)[i - 1]);
                }
            }
            assert(one =~= other);
        }
    } else if one.len() == 0 && other.len() == 0 {
        assert(one =~= other);
    }
}

proof fn lemma_key_chain(one: Seq<int>, two: Seq<int>, three: Seq<int>)
    requires
        key_before(one, two),
        key_before(two, three),
    ensures
        key_before(one, three),
    decreases one.len(),
{
    if one.len() > 0 && two.len() > 0 && three.len() > 0 && one[0] == two[0] && two[0] == three[0] {
        lemma_key_chain(one.skip(1), two.skip(1), three.skip(1));
    }
}

/// Which of two paths comes first, part by part: below zero the first, above zero the
/// second, zero if they are the same path.
pub open spec fn path_way(one: Seq<char>, other: Seq<char>) -> int {
    if key_before(sort_key(one), sort_key(other)) {
        -1
    } else if sort_key(one) == sort_key(other) {
        0
    } else {
        1
    }
}

/// Compares two paths part by part.
pub fn compare_paths(one: &str, other: &str) -> (way: i8)
    ensures
        way == path_way(one@, other@),
{
    let a = key_of(one);
    let b = key_of(other);
    if is_earlier(&a, &b) {
        -1
    } else if same_key(&a, &b) {
        0
    } else {
        1
    }
}

/// Swapping two paths turns their order round.
pub proof fn lemma_path_swap(one: Seq<char>, other: Seq<char>)
    ensures
        path_way(one, other) == -path_way(other, one),
        path_way(one, other) == 0 <==> sort_key(one) == sort_key(other),
{
    lemma_key_total(sort_key(one), sort_key(other));
}

/// A path that comes before one that comes before a third comes before that, strictly if
/// either does.
pub proof fn lemma_path_chain(one: Seq<char>, two: Seq<char>, three: Seq<char>)
    requires
        path_way(one, two) <= 0,
        path_way(two, three) <= 0,
    ensures
        path_way(one, three) <= 0,
        path_way(one, two) < 0 || path_way(two, three) < 0 ==> path_way(one, three) < 0,
{
    if path_way(one, two) < 0 && path_way(two, three) < 0 {
        lemma_key_chain(sort_key(one), sort_key(two), sort_key(three));
    }
    lemma_key_total(sort_key(one), sort_key(two));
    lemma_key_total(sort_key(two), sort_key(three));
}

/// Where the first of `files` with a key stands, or their number.
pub open spec fn earliest(files: Seq<String>, key: Seq<int>) -> int
    decreases files.len(),
{
    if files.len() == 0 {
        0
    } else if earliest(files.drop_last(), key) < files.len() - 1 {
        earliest(files.drop_last(), key)
    } else if sort_key(files.last()@) == key {
        files.len() - 1
    } else {
        files.len() as int
    }
}

/// Whether one of `files` has a key.
pub open spec fn has_key(files: Seq<String>, key: Seq<int>) -> bool {
    exists|i: int| 0 <= i < files.len() && sort_key((#[trigger] files[i])@) == key
}

/// Whether `out` is what gathered files come to: in order, each once, as first written.
pub open spec fn is_settled(out: Seq<String>, files: Seq<String>) -> bool {
    &&& forall|i: int, j: int|
        0 <= i < j < out.len() ==> key_before(
            sort_key((#[trigger] out[i])@),
            sort_key((#[trigger] out[j])@),
        )
    &&& forall|j: int|
        0 <= j < files.len() ==> has_key(out, sort_key((#[trigger] files[j])@))
    &&& forall|i: int|
        0 <= i < out.len() ==> {
            let at = earliest(files, sort_key((#[trigger] out[i])@));
            0 <= at < files.len() && out[i]@ == files[at]@
        }
}

proof fn lemma_earliest(files: Seq<String>, key: Seq<int>)
    ensures
        0 <= earliest(files, key) <= files.len(),
        earliest(files, key) < files.len() ==> sort_key(files[earliest(files, key)]@) == key,
    decreases files.len(),
{
    if files.len() > 0 {
        lemma_earliest(files.drop_last(), key);
    }
}

/// Sorts gathered files and drops those that were named before.
pub fn settle(files: &Vec<String>) -> (out: Vec<String>)
    ensures
        is_settled(out@, files@),
{
    let mut out: Vec<String> = Vec::new();
    let mut keys: Vec<Vec<u32>> = Vec::new();
    let mut n: usize = 0;
    while n < files.len()
        invariant
            n <= files@.len(),
            out@.len() == keys@.len(),
            forall|i: int|
                0 <= i < out@.len() ==> ints((#[trigger] keys@[i])@) == sort_key(out@[i]@),
            is_settled(out@, files@.take(n as int)),
        decreases files@.len() - n,
    {
        let key = key_of(files[n].as_str());
        let ghost seen = files@.take(n as int);
        let ghost more = files@.take(n + 1);
        let ghost k = ints(key@);
        proof {
            assert(more.drop_last() =~= seen);
            assert(more.last() == files@[n as int]);
        }
        let mut at: usize = 0;
        while at < keys.len() && is_earlier(&keys[at], &key)
            invariant
                at <= keys@.len(),
                out@.len() == keys@.len(),
                k == ints(key@),
                forall|i: int|
                    0 <= i < out@.len() ==> ints((#[trigger] keys@[i])@) == sort_key(out@[i]@),
                forall|i: int| 0 <= i < at ==> key_before(sort_key((#[trigger] out@[i])@), k),
            decreases keys@.len() - at,
        {
            assert(ints(keys@[at as int]@) == sort_key(out@[at as int]@));
            at += 1;
        }
        let ghost before = out@;
        if at < keys.len() && same_key(&keys[at], &key) {
            proof {
                assert(ints(keys@[at as int]@) == sort_key(out@[at as int]@));
                lemma_settled_again(before, seen, more, at as int);
            }
        } else {
            proof {
                if at < keys@.len() {
                    assert(ints(keys@[at as int]@) == sort_key(before[at as int]@));
                    lemma_key_total(sort_key(before[at as int]@), k);
                }
                lemma_settled_new(before, seen, more, at as int);
            }
            let ghost keys_before = keys@;
            out.insert(at, files[n].clone());
            keys.insert(at, key);
            assert(out@ =~= before.insert(at as int, out@[at as int]));
            proof {
                assert forall|i: int| 0 <= i < out@.len() implies ints((#[trigger] keys@[i])@)
                    == sort_key(out@[i]@) by {
                    if i < at {
                        assert(keys@[i] == keys_before[i] && out@[i] == before[i]);
                    } else if i > at {
                        assert(keys@[i] == keys_before[i - 1] && out@[i] == before[i - 1]);
                    }
                }
                lemma_settled_text(before.insert(at as int, more.last()), out@, more);
            }
        }
        n += 1;
    }
    assert(files@.take(n as int) =~= files@);
    out
}

/// A file whose key is there already changes nothing.
proof fn lemma_settled_again(out: Seq<String>, seen: Seq<String>, more: Seq<String>, at: int)
    requires
        is_settled(out, seen),
        more.len() == seen.len() + 1,
        more.drop_last() == seen,
        0 <= at < out.len(),
        sort_key(out[at]@) == sort_key(more.last()@),
    ensures
        is_settled(out, more),
{
    assert forall|j: int| 0 <= j < more.len() implies has_key(out, sort_key((#[trigger] more[j])@)) by {
        if j < seen.len() {
            assert(more[j] == seen[j]);
        } else {
            assert(sort_key(out[at]@) == sort_key(more[j]@));
        }
    }
    assert forall|i: int| 0 <= i < out.len() implies ({
        let place = earliest(more, sort_key((#[trigger] out[i])@));
        0 <= place < more.len() && out[i]@ == more[place]@
    }) by {
        let place = earliest(seen, sort_key(out[i]@));
        assert(more[place] == seen[place]);
    }
}

/// A file with a new key goes where its key belongs.
proof fn lemma_settled_new(out: Seq<String>, seen: Seq<String>, more: Seq<String>, at: int)
    requires
        is_settled(out, seen),
        more.len() == seen.len() + 1,
        more.drop_last() == seen,
        0 <= at <= out.len(),
        forall|i: int|
            0 <= i < at ==> key_before(sort_key((#[trigger] out[i])@), sort_key(more.last()@)),
        at < out.len() ==> key_before(sort_key(more.last()@), sort_key(out[at]@)),
    ensures
        is_settled(out.insert(at, more.last()), more),
{
    let new = more.last();
    let key = sort_key(new@);
    let put = out.insert(at, new);
    assert forall|i: int| at <= i < out.len() implies key_before(
        key,
        sort_key((#[trigger] out[i])@),
    ) by {
        if i > at {
            lemma_key_chain(key, sort_key(out[at]@), sort_key(out[i]@));
        }
    }
    assert forall|i: int, j: int| 0 <= i < j < put.len() implies key_before(
        sort_key((#[trigger] put[i])@),
        sort_key((#[trigger] put[j])@),
    ) by {
        let a = if i < at {
            i
        } else {
            i - 1
        };
        let b = if j < at {
            j
        } else {
            j - 1
        };
        if i == at {
            assert(put[j] == out[b]);
        } else if j == at {
            assert(put[i] == out[a]);
        } else {
            assert(put[i] == out[a] && put[j] == out[b]);
        }
    }
    assert forall|j: int| 0 <= j < more.len() implies has_key(put, sort_key((#[trigger] more[j])@)) by {
        if j < seen.len() {
            assert(more[j] == seen[j]);
            let i = choose|i: int|
                0 <= i < out.len() && sort_key((#[trigger] out[i])@) == sort_key(seen[j]@);
            if i < at {
                assert(put[i] == out[i]);
            } else {
                assert(put[i + 1] == out[i]);
            }
        } else {
            assert(put[at] == new);
        }
    }
    assert forall|i: int| 0 <= i < put.len() implies ({
        let place = earliest(more, sort_key((#[trigger] put[i])@));
        0 <= place < more.len() && put[i]@ == more[place]@
    }) by {
        if i == at {
            lemma_earliest(seen, key);
            let place = earliest(seen, key);
            if place < seen.len() {
                let twin = choose|k: int|
                    0 <= k < out.len() && sort_key((#[trigger] out[k])@) == sort_key(seen[place]@);
                lemma_key_total(key, sort_key(out[twin]@));
            }
        } else {
            let a = if i < at {
                i
            } else {
                i - 1
            };
            assert(put[i] == out[a]);
            let place = earliest(seen, sort_key(out[a]@));
            assert(more[place] == seen[place]);
        }
    }
}

/// Only the texts matter.
proof fn lemma_settled_text(one: Seq<String>, other: Seq<String>, files: Seq<String>)
    requires
        is_settled(one, files),
        one.len() == other.len(),
        forall|i: int| 0 <= i < one.len() ==> (#[trigger] one[i])@ == other[i]@,
    ensures
        is_settled(other, files),
{
    assert forall|i: int, j: int| 0 <= i < j < other.len() implies key_before(
        sort_key((#[trigger] other[i])@),
        sort_key((#[trigger] other[j])@),
    ) by {
        assert(one[i]@ == other[i]@ && one[j]@ == other[j]@);
    }
    assert forall|j: int| 0 <= j < files.len() implies has_key(
        other,
        sort_key((#[trigger] files[j])@),
    ) by {
        let i = choose|i: int|
            0 <= i < one.len() && sort_key((#[trigger] one[i])@) == sort_key(files[j]@);
        assert(other[i]@ == one[i]@);
    }
    assert forall|i: int| 0 <= i < other.len() implies ({
        let place = earliest(files, sort_key((#[trigger] other[i])@));
        0 <= place < files.len() && other[i]@ == files[place]@
    }) by {
        let place = earliest(files, sort_key(one[i]@));
        assert(0 <= place < files.len() && one[i]@ == files[place]@);
        assert(one[i]@ == other[i]@);
    }
}

/// What a process turned out to be.
#[derive(Debug)]
pub enum Role {
    /// Nobody else was collecting, so this process is. Holds every path gathered, its own
    /// among them.
    Collector(Vec<String>),
    /// Another process is collecting and has been given the paths.
    HandedOver,
}

/// How the election for the pipe went.
#[derive(Debug)]
pub enum Election {
    /// There is nobody to gather from.
    Alone,
    /// This process owns the pipe, and was handed these paths over it.
    Won(Vec<Vec<String>>),
    /// Another process owns the pipe, and could or could not be reached.
    Lost { reached: bool },
}

/// All lists in a row.
pub open spec fn in_a_row(own: Seq<String>, handed: Seq<Vec<String>>, n: int) -> Seq<String>
    decreases n,
{
    if n <= 0 {
        own
    } else {
        in_a_row(own, handed, n - 1) + handed[n - 1]@
    }
}

/// Whether `all` is what own files and those handed over come to.
pub open spec fn is_gathered(all: Seq<String>, own: Seq<String>, handed: Seq<Vec<String>>) -> bool {
    exists|row: Seq<String>|
        same_texts(row, in_a_row(own, handed, handed.len() as int)) && #[trigger] is_settled(
            all,
            row,
        )
}

/// What a process does with its files, by how the election went. One that can reach
/// nobody converts them itself rather than drop them.
pub fn join(files: Vec<String>, election: Election) -> (role: Role)
    ensures
        match election {
            Election::Alone => role == Role::Collector(files),
            Election::Lost { reached } => role == (if reached {
                Role::HandedOver
            } else {
                Role::Collector(files)
            }),
            Election::Won(handed) => role matches Role::Collector(all) && is_gathered(
                all@,
                files@,
                handed@,
            ),
        },
{
    match election {
        Election::Alone => Role::Collector(files),
        Election::Lost { reached } => if reached {
            Role::HandedOver
        } else {
            Role::Collector(files)
        },
        Election::Won(handed) => {
            let ghost own = files@;
            let mut row = files;
            let mut n: usize = 0;
            while n < handed.len()
                invariant
                    n <= handed@.len(),
                    same_texts(row@, in_a_row(own, handed@, n as int)),
                decreases handed@.len() - n,
            {
                let list = &handed[n];
                let ghost before = row@;
                let ghost spec_before = in_a_row(own, handed@, n as int);
                let mut k: usize = 0;
                assert(spec_before + list@.take(0) =~= spec_before);
                while k < list.len()
                    invariant
                        k <= list@.len(),
                        same_texts(row@, spec_before + list@.take(k as int)),
                    decreases list@.len() - k,
                {
                    row.push(list[k].clone());
                    k += 1;
                    assert(spec_before + list@.take(k as int) =~= (spec_before + list@.take(
                        k - 1,
                    )).push(list@[k - 1]));
                }
                assert(list@.take(k as int) =~= list@);
                n += 1;
            }
            let all = settle(&row);
            assert(is_gathered(all@, own, handed@)) by {
                assert(same_texts(row@, in_a_row(own, handed@, handed@.len() as int)));
                assert(is_settled(all@, row@));
            }
            Role::Collector(all)
        },
    }
}

/// Whether two lists hold the same texts.
pub open spec fn same_texts(one: Seq<String>, other: Seq<String>) -> bool {
    &&& one.len() == other.len()
    &&& forall|i: int| 0 <= i < one.len() ==> (#[trigger] one[i])@ == other[i]@
}

/// Whether gathering goes on after so many milliseconds: while arrivals keep coming, and
/// not past its limit.
pub fn gathers_on(elapsed: u64, arrived: bool) -> (goes_on: bool)
    ensures
        goes_on == (arrived && elapsed < GATHER_LIMIT),
{
    arrived && elapsed < GATHER_LIMIT
}

/// Whether a process that finds the pipe busy tries again after so many milliseconds.
pub fn tries_again(elapsed: u64) -> (again: bool)
    ensures
        again == (elapsed < 4 * STRAGGLER_WAIT),
{
    elapsed < 4 * STRAGGLER_WAIT
}

/// Batches with different keys have different pipes.
pub proof fn law_batches_do_not_merge(one: Seq<char>, other: Seq<char>)
    requires
        "\\\\.\\pipe\\imaginer-convert-"@ + one == "\\\\.\\pipe\\imaginer-convert-"@ + other,
    ensures
        one == other,
{
    let front = "\\\\.\\pipe\\imaginer-convert-"@;
    assert(one =~= (front + one).skip(front.len() as int));
    assert(other =~= (front + other).skip(front.len() as int));
}

/// Where two keys first differ, the smaller number goes first.
proof fn lemma_first_difference(one: Seq<int>, other: Seq<int>, k: int)
    requires
        0 <= k < one.len(),
        k < other.len(),
        forall|i: int| 0 <= i < k ==> one[i] == other[i],
        one[k] < other[k],
    ensures
        key_before(one, other),
        !key_before(other, one),
    decreases k,
{
    if k > 0 {
        assert(one[0] == other[0]);
        assert forall|i: int| 0 <= i < k - 1 implies one.skip(1)[i] == other.skip(1)[i] by {
            assert(one[i + 1] == other[i + 1]);
        }
        lemma_first_difference(one.skip(1), other.skip(1), k - 1);
    }
}

/// Whether a name stands for a file where it is: one part, on no drive, and not the folder itself
/// or the one above.
pub open spec fn is_plain(name: Seq<char>) -> bool {
    &&& name.len() > 0
    &&& forall|i: int| 0 <= i < name.len() ==> #[trigger] name[i] != '\\' && name[i] != '/'
    &&& name.len() >= 2 ==> name[1] != ':'
    &&& name != seq!['.']
    &&& name != seq!['.', '.']
}

proof fn lemma_plain_key(name: Seq<char>)
    requires
        is_plain(name),
    ensures
        sort_key(name) == seq![6int, 0] + name.map_values(|c: char| c as int + 4) + seq![0],
{
    assert(name[0] != '\\' && name[0] != '/');
    assert(path::prefix_of(name) is Nothing);
    assert(path::plain_prefix(name) =~= Seq::<char>::empty());
    assert(path::plain_prefix(name).map_values(|c: char| code(c)) =~= Seq::<int>::empty());
    assert(!path::is_dotted(name)) by {
        if path::is_dotted(name) && name.len() == 1 {
            assert(name =~= seq!['.']);
        }
    }
    lemma_plain_end(name, 0);
    path::lemma_part_end(name, 1);
    assert(name.subrange(0, name.len() as int) =~= name);
    assert(part_keys(name, name.len() as int) =~= Seq::<int>::empty());
    let parts = name.map_values(|c: char| c as int + 4) + seq![0];
    assert(part_keys(name, 0) =~= parts);
    assert(sort_key(name) =~= seq![6int, 0] + parts);
    assert(seq![6int, 0] + parts =~= seq![6int, 0] + name.map_values(|c: char| c as int + 4)
        + seq![0]);
}

proof fn lemma_plain_end(name: Seq<char>, at: int)
    requires
        is_plain(name),
        0 <= at <= name.len(),
    ensures
        path::part_end(name, at) == name.len(),
    decreases name.len() - at,
{
    if at < name.len() {
        assert(name[at] != '\\' && name[at] != '/');
        lemma_plain_end(name, at + 1);
    }
}

proof fn lemma_a_character_is_a_number(c: char)
    ensures
        c as int >= 0,
{
}

/// Names in one folder are told apart by their first difference, character by character, and a
/// name goes before those that it begins.
pub proof fn law_names_are_told_apart_by_their_first_difference(
    one: Seq<char>,
    other: Seq<char>,
    k: int,
)
    requires
        is_plain(one),
        is_plain(other),
        0 <= k <= one.len(),
        k < other.len(),
        forall|i: int| 0 <= i < k ==> one[i] == other[i],
        k == one.len() || one[k] < other[k],
    ensures
        path_way(one, other) == -1,
        path_way(other, one) == 1,
        path_way(one, one) == 0,
{
    lemma_plain_key(one);
    lemma_plain_key(other);
    let first = sort_key(one);
    let second = sort_key(other);
    assert forall|i: int| 0 <= i < k + 2 implies first[i] == second[i] by {
        if i >= 2 {
            assert(first[i] == one[i - 2] as int + 4);
            assert(second[i] == other[i - 2] as int + 4);
        }
    }
    assert(second[k + 2] == other[k] as int + 4);
    if k < one.len() {
        assert(first[k + 2] == one[k] as int + 4);
        assert(one[k] < other[k]);
    } else {
        assert(first[k + 2] == 0);
        lemma_a_character_is_a_number(other[k]);
    }
    lemma_first_difference(first, second, k + 2);
    lemma_not_before_itself(first);
}

proof fn lemma_not_before_itself(key: Seq<int>)
    ensures
        !key_before(key, key),
    decreases key.len(),
{
    if key.len() > 0 {
        lemma_not_before_itself(key.skip(1));
    }
}

/// What settles has every path once: each that was named, however often, and no other.
pub proof fn law_every_path_settles_once(out: Seq<String>, files: Seq<String>, i: int, j: int)
    requires
        is_settled(out, files),
        0 <= i < j < out.len(),
    ensures
        out[i]@ != out[j]@,
        path_way(out[i]@, out[j]@) == -1,
        exists|k: int| 0 <= k < files.len() && (#[trigger] files[k])@ == out[i]@,
{
    lemma_not_before_itself(sort_key(out[i]@));
    assert(key_before(sort_key(out[i]@), sort_key(out[j]@)));
    let at = earliest(files, sort_key(out[i]@));
    assert(files[at]@ == out[i]@);
}

/// Nothing that was named is lost.
pub proof fn law_no_path_is_lost(out: Seq<String>, files: Seq<String>, k: int)
    requires
        is_settled(out, files),
        0 <= k < files.len(),
    ensures
        exists|i: int| 0 <= i < out.len() && path_way((#[trigger] out[i])@, files[k]@) == 0,
{
    assert(has_key(out, sort_key(files[k]@)));
    let i = choose|i: int| 0 <= i < out.len() && sort_key((#[trigger] out[i])@) == sort_key(
        files[k]@,
    );
    lemma_not_before_itself(sort_key(out[i]@));
    assert(path_way(out[i]@, files[k]@) == 0);
}

/// What was handed over follows what was there, one process after the other.
pub proof fn law_paths_are_gathered_in_turn(
    own: Seq<String>,
    handed: Seq<Vec<String>>,
    more: Vec<String>,
)
    ensures
        in_a_row(own, Seq::empty(), 0) == own,
        in_a_row(own, handed.push(more), handed.len() + 1int) == in_a_row(
            own,
            handed,
            handed.len() as int,
        ) + more@,
{
    lemma_row_of_a_front(own, handed, more, handed.len() as int);
}

proof fn lemma_row_of_a_front(
    own: Seq<String>,
    handed: Seq<Vec<String>>,
    more: Vec<String>,
    n: int,
)
    requires
        0 <= n <= handed.len(),
    ensures
        in_a_row(own, handed.push(more), n) == in_a_row(own, handed, n),
    decreases n,
{
    if n > 0 {
        lemma_row_of_a_front(own, handed, more, n - 1);
    }
}

/// Paths travel as units of two bytes, the low one first.
pub proof fn law_a_unit_is_two_bytes(units: Seq<u16>, i: int)
    requires
        0 <= i < units.len(),
    ensures
        bytes_of(units).len() == 2 * units.len(),
        bytes_of(units)[2 * i] + 256 * bytes_of(units)[2 * i + 1] == units[i],
        units_of(bytes_of(units)) == units,
{
    assert((2 * i) / 2 == i && (2 * i) % 2 == 0 && (2 * i + 1) / 2 == i && (2 * i + 1) % 2 == 1);
    assert forall|k: int| 0 <= k < units.len() implies #[trigger] units_of(bytes_of(units))[k]
        == units[k] by {
        assert((2 * k) / 2 == k && (2 * k) % 2 == 0 && (2 * k + 1) / 2 == k && (2 * k + 1) % 2
            == 1);
    }
    assert(units_of(bytes_of(units)) =~= units);
}

} // verus!
