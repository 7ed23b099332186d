//! A cache of small previews on disk, one file per thumbnail.
//!
//! The name of a file is made of what it is a thumbnail of: the path, the size and the
//! time of modification. An image that was saved over lands under another name, and the
//! stale one stops being asked for.

use vstd::prelude::*;
use crate::cache::Moment;
use crate::cache::Stamp;
use crate::codecs;
use crate::codecs::encode_png;
use crate::decode;
use crate::decoders;
use crate::edit::Applied;
use crate::fit;
use crate::fit::fit_within;
use crate::path;
use crate::raster;
use crate::raster::Picture;
use crate::raster::Raster;

verus! {

/// Longest side of a stored thumbnail, in pixels.
pub const MAX_SIDE: u32 = 256;

/// With more thumbnails than this, the oldest are deleted.
pub const PRUNE_WHEN: usize = 4096;

/// How many are left then.
pub const PRUNE_KEEP: usize = 3600;

/// Where thumbnails are kept: where a user says, or under the folder that a machine keeps
/// local data in.
pub fn cache_dir(chosen: Option<&str>, local: Option<&str>) -> (dir: Option<String>)
    ensures
        dir is Some == (chosen is Some || local is Some),
        dir matches Some(dir) ==> dir@ == (match chosen {
            Some(chosen) => chosen@,
            None => path::joined(path::joined(local->0@, "imaginer"@), "thumbs"@),
        }),
{
    match (chosen, local) {
        (Some(chosen), _) => Some(chosen.to_owned()),
        (None, Some(local)) => Some(
            path::join(path::join(local, "imaginer").as_str(), "thumbs"),
        ),
        (None, None) => None,
    }
}

/// FNV-1a of the first `n` bytes, in 64 bits.
pub open spec fn fnv(bytes: Seq<u8>, n: int) -> u64
    decreases n,
{
    if n <= 0 {
        0xcbf2_9ce4_8422_2325
    } else {
        (((fnv(bytes, n - 1) ^ (bytes[n - 1] as u64)) * 0x0000_0100_0000_01b3)
            % 0x1_0000_0000_0000_0000) as u64
    }
}

pub fn fnv1a(bytes: &[u8]) -> (hash: u64)
    ensures
        hash == fnv(bytes@, bytes@.len() as int),
{
    let mut hash: u64 = 0xcbf2_9ce4_8422_2325;
    let mut i: usize = 0;
    while i < bytes.len()
        invariant
            i <= bytes@.len(),
            hash == fnv(bytes@, i as int),
        decreases bytes@.len() - i,
    {
        hash = (hash ^ (bytes[i] as u64)).wrapping_mul(0x0000_0100_0000_01b3);
        i += 1;
    }
    hash
}

/// How long after the epoch a file was modified. One that was modified before it, or
/// nobody knows when, counts as from the epoch itself.
pub open spec fn since_epoch(modified: Option<Moment>) -> (u64, u32) {
    match modified {
        Some(moment) => if moment.secs >= 0 {
            (moment.secs as u64, moment.nanos)
        } else {
            (0, 0)
        },
        None => (0, 0),
    }
}

/// The low `count` bytes of a number, the lowest first.
pub open spec fn little_endian(n: nat, count: nat) -> Seq<u8>
    decreases count,
{
    if count == 0 {
        Seq::empty()
    } else {
        seq![(n % 256) as u8] + little_endian(n / 256, (count - 1) as nat)
    }
}

/// What the name of a thumbnail is made of: the path, and what the file looks like.
pub open spec fn mixed(path: Seq<char>, stamp: Stamp) -> Seq<u8> {
    let (secs, nanos) = since_epoch(stamp.modified);
    vstd::utf8::encode_utf8(path) + little_endian(stamp.file_size as nat, 8) + little_endian(
        secs as nat,
        8,
    ) + little_endian(nanos as nat, 4)
}

fn push_little_endian(out: &mut Vec<u8>, n: u64, count: u32)
    requires
        count <= 8,
    ensures
        final(out)@ == old(out)@ + little_endian(n as nat, count as nat),
{
    let mut rest: u64 = n;
    let mut left: u32 = count;
    let ghost start = out@;
    while left > 0
        invariant
            left <= count,
            start + little_endian(n as nat, count as nat) == out@ + little_endian(
                rest as nat,
                left as nat,
            ),
        decreases left,
    {
        let ghost so_far = out@;
        let byte: u8 = (rest % 256) as u8;
        out.push(byte);
        proof {
            let tail = little_endian((rest / 256) as nat, (left - 1) as nat);
            assert(so_far + (seq![byte] + tail) =~= out@ + tail);
        }
        rest = rest / 256;
        left -= 1;
    }
    assert(out@ + Seq::<u8>::empty() =~= out@);
}

/// One hexadecimal digit.
pub open spec fn hex_digit(d: nat) -> char {
    if d < 10 {
        (48 + d) as char
    } else {
        (87 + d) as char
    }
}

/// The low `count` hexadecimal digits of a number, the highest first.
pub open spec fn hex(n: nat, count: nat) -> Seq<char>
    decreases count,
{
    if count == 0 {
        Seq::empty()
    } else {
        hex(n / 16, (count - 1) as nat).push(hex_digit(n % 16))
    }
}

fn to_hex(n: u64, count: u32) -> (digits: Vec<char>)
    ensures
        digits@ == hex(n as nat, count as nat),
    decreases count,
{
    if count == 0 {
        return Vec::new();
    }
    let mut digits = to_hex(n / 16, count - 1);
    let d: u8 = (n % 16) as u8;
    digits.push(
        if d < 10 {
            (48 + d) as char
        } else {
            (87 + d) as char
        },
    );
    digits
}

/// The name under which the thumbnail of a file is kept.
pub open spec fn name_for(path: Seq<char>, stamp: Stamp) -> Seq<char> {
    hex(fnv(mixed(path, stamp), mixed(path, stamp).len() as int) as nat, 16) + ".png"@
}

/// The name under which the thumbnail of a file is kept, for a file that could be stamped.
pub fn entry_name(path: &str, stamp: Option<Stamp>) -> (name: Option<String>)
    ensures
        name is Some == (stamp is Some),
        name matches Some(name) ==> name@ == name_for(path@, stamp->0),
{
    let stamp = match stamp {
        Some(stamp) => stamp,
        None => return None,
    };
    let (secs, nanos): (u64, u32) = match stamp.modified {
        Some(moment) => if moment.secs >= 0 {
            (moment.secs as u64, moment.nanos)
        } else {
            (0, 0)
        },
        None => (0, 0),
    };
    let text = path.as_bytes();
    let mut bytes: Vec<u8> = Vec::new();
    let mut i: usize = 0;
    while i < text.len()
        invariant
            i <= text@.len(),
            bytes@ == text@.take(i as int),
        decreases text@.len() - i,
    {
        bytes.push(text[i]);
        i += 1;
        assert(bytes@ =~= text@.take(i as int));
    }
    assert(text@.take(i as int) =~= text@);
    push_little_endian(&mut bytes, stamp.file_size, 8);
    push_little_endian(&mut bytes, secs, 8);
    push_little_endian(&mut bytes, nanos as u64, 4);
    let digits = to_hex(fnv1a(bytes.as_slice()), 16);
    let mut name = crate::text::string_of(digits.as_slice());
    name.append(".png");
    Some(name)
}

/// The name a thumbnail has while it is being written, so that nobody reads half of one.
pub fn temporary_name(name: &str, process: u32) -> (temporary: String)
    ensures
        temporary@ == name@ + ".tmp-"@ + crate::text::decimal(process as nat),
{
    let mut temporary = name.to_owned();
    temporary.append(".tmp-");
    temporary.append(crate::text::to_decimal(process as u64).as_str());
    temporary
}

/// A picture brought down to the size of a thumbnail. Never made larger.
pub fn scaled<'a>(pixels: &'a Raster) -> (thumbnail: Applied<'a>)
    requires
        pixels.wf(),
        fit::fittable((pixels.width, pixels.height), MAX_SIDE),
    ensures
        thumbnail.wf(),
        thumbnail.picture() == fit::fitted(*pixels, MAX_SIDE),
        (thumbnail.picture().width, thumbnail.picture().height) == fit::size_within(
            (pixels.width, pixels.height),
            MAX_SIDE,
        ),
        thumbnail.picture().width <= MAX_SIDE,
        thumbnail.picture().height <= MAX_SIDE,
{
    fit_within(pixels, MAX_SIDE)
}

/// The file of a thumbnail, or why there is none. A picture that is not of nothing has one,
/// and what is in it is the picture brought down to size.
pub fn encode(pixels: &Raster) -> (file: Result<Vec<u8>, String>)
    requires
        pixels.wf(),
        fit::fittable((pixels.width, pixels.height), MAX_SIDE),
    ensures
        file is Ok == ({
            let size = fit::size_within((pixels.width, pixels.height), MAX_SIDE);
            size.0 >= 1 && size.1 >= 1
        }),
        file matches Ok(file) ==> stored_in(file@) == Some(fit::fitted(*pixels, MAX_SIDE)),
{
    let thumbnail = scaled(pixels);
    let raster = thumbnail.as_raster();
    proof {
        assert(raster@.width == raster.width && raster@.height == raster.height);
        assert(raster.pixels@.take(raster.width * raster.height * 4) =~= raster.pixels@);
        assert(raster.width * raster.height * 4 <= MAX_SIDE * MAX_SIDE * 4) by (nonlinear_arith)
            requires
                0 <= raster.width <= MAX_SIDE,
                0 <= raster.height <= MAX_SIDE,
        ;
    }
    encode_png(raster)
}

/// The thumbnail that a stored file holds, if it is a PNG that decodes.
pub open spec fn stored_in(file: Seq<u8>) -> Option<Picture> {
    if codecs::is_png(file) {
        match decoders::still_of(file) {
            Ok(map) => if decode::usable(map) {
                Some(decode::pictured(map))
            } else {
                None
            },
            Err(_) => None,
        }
    } else {
        None
    }
}

/// Reads a stored thumbnail. Whatever is wrong with it, there is then none.
pub fn load(file: &[u8]) -> (thumbnail: Option<Raster>)
    ensures
        thumbnail is Some == (stored_in(file@) is Some),
        thumbnail matches Some(thumbnail) ==> thumbnail.wf() && stored_in(file@) == Some(
            thumbnail@,
        ),
{
    let signature: [u8; 8] = [0x89, 80, 78, 71, 13, 10, 26, 10];
    assert(signature@ =~= seq![0x89u8, 80, 78, 71, 13, 10, 26, 10]);
    if !decode::starts_with(file, signature.as_slice()) {
        return None;
    }
    proof {
        // A PNG is no WebP.
        assert(file@.take(8)[0] == 0x89u8);
        if decoders::is_webp(file@) {
            assert(file@.take(4)[0] == 82u8);
        }
    }
    match decoders::decode_still(file) {
        Ok(raw) => Raster::from_raw(raw.width, raw.height, raw.pixels),
        Err(_) => None,
    }
}

/// How many of `files` come before the one at `i` when they are put in order of age, those
/// of the same age as they stand.
pub open spec fn rank(files: Seq<Moment>, i: int, n: int) -> int
    decreases n,
{
    if n <= 0 {
        0
    } else {
        rank(files, i, n - 1) + (if older(files[n - 1], files[i]) || files[n - 1] == files[i] && n
            - 1 < i {
            1int
        } else {
            0
        })
    }
}

/// Whether one moment lies before another.
pub open spec fn older(one: Moment, other: Moment) -> bool {
    one.secs < other.secs || one.secs == other.secs && one.nanos < other.nanos
}

/// Whether pruning deletes the file at `i`: there are more than `when`, and it is not
/// among the newest `keep`.
pub open spec fn is_pruned(files: Seq<Moment>, when: int, keep: int, i: int) -> bool {
    files.len() > when && rank(files, i, files.len() as int) < files.len() - keep
}

fn ranked(files: &Vec<Moment>, i: usize) -> (place: usize)
    requires
        i < files@.len(),
    ensures
        place == rank(files@, i as int, files@.len() as int),
        place <= files@.len(),
{
    let own = files[i];
    let mut place: usize = 0;
    let mut n: usize = 0;
    while n < files.len()
        invariant
            i < files@.len(),
            own == files@[i as int],
            n <= files@.len(),
            place <= n,
            place == rank(files@, i as int, n as int),
        decreases files@.len() - n,
    {
        let one = files[n];
        if one.secs < own.secs || one.secs == own.secs && (one.nanos < own.nanos || one.nanos
            == own.nanos && n < i) {
            place += 1;
        }
        n += 1;
    }
    place
}

/// Which of the stored thumbnails, by their age, are deleted when there are more than
/// `when`, so that `keep` are left.
pub fn prune(files: &Vec<Moment>, when: usize, keep: usize) -> (doomed: Vec<bool>)
    requires
        files@.len() > when ==> keep <= files@.len(),
    ensures
        doomed@.len() == files@.len(),
        forall|i: int|
            0 <= i < files@.len() ==> #[trigger] doomed@[i] == is_pruned(
                files@,
                when as int,
                keep as int,
                i,
            ),
{
    let mut doomed: Vec<bool> = Vec::new();
    let mut i: usize = 0;
    while i < files.len()
        invariant
            i <= files@.len(),
            files@.len() > when ==> keep <= files@.len(),
            doomed@.len() == i,
            forall|k: int|
                0 <= k < i ==> #[trigger] doomed@[k] == is_pruned(
                    files@,
                    when as int,
                    keep as int,
                    k,
                ),
        decreases files@.len() - i,
    {
        let dies = files.len() > when && ranked(files, i) < files.len() - keep;
        doomed.push(dies);
        i += 1;
    }
    doomed
}

/// A number of so many bytes is known by those bytes.
proof fn lemma_little_endian(n: nat, m: nat, count: nat)
    requires
        n < vstd::arithmetic::power2::pow2(8 * count),
        m < vstd::arithmetic::power2::pow2(8 * count),
        little_endian(n, count) == little_endian(m, count),
    ensures
        n == m,
    decreases count,
{
    if count == 0 {
        vstd::arithmetic::power2::lemma2_to64();
    } else {
        vstd::arithmetic::power2::lemma2_to64();
        vstd::arithmetic::power2::lemma_pow2_adds(8, (8 * (count - 1)) as nat);
        let one = little_endian(n, count);
        let other = little_endian(m, count);
        let limit = vstd::arithmetic::power2::pow2((8 * (count - 1)) as nat);
        assert(8 + 8 * (count - 1) == 8 * count);
        assert(one[0] == (n % 256) as u8 && other[0] == (m % 256) as u8);
        assert(one.skip(1) =~= little_endian(n / 256, (count - 1) as nat));
        assert(other.skip(1) =~= little_endian(m / 256, (count - 1) as nat));
        assert(n / 256 < limit && m / 256 < limit);
        lemma_little_endian(n / 256, m / 256, (count - 1) as nat);
    }
}

proof fn lemma_little_endian_len(n: nat, count: nat)
    ensures
        little_endian(n, count).len() == count,
    decreases count,
{
    if count > 0 {
        lemma_little_endian_len(n / 256, (count - 1) as nat);
    }
}

/// A file that changed is asked for under what is made of other bytes: its size and its
/// time of modification can both be told from them.
pub proof fn law_a_changed_file_is_mixed_anew(path: Seq<char>, one: Stamp, other: Stamp)
    requires
        mixed(path, one) == mixed(path, other),
    ensures
        one.file_size == other.file_size,
        since_epoch(one.modified) == since_epoch(other.modified),
{
    let name = vstd::utf8::encode_utf8(path);
    let n = name.len() as int;
    let (a, b) = since_epoch(one.modified);
    let (c, d) = since_epoch(other.modified);
    lemma_little_endian_len(one.file_size as nat, 8);
    lemma_little_endian_len(other.file_size as nat, 8);
    lemma_little_endian_len(a as nat, 8);
    lemma_little_endian_len(c as nat, 8);
    lemma_little_endian_len(b as nat, 4);
    lemma_little_endian_len(d as nat, 4);
    let first = mixed(path, one);
    let second = mixed(path, other);
    assert(first.subrange(n, n + 8) =~= little_endian(one.file_size as nat, 8));
    assert(second.subrange(n, n + 8) =~= little_endian(other.file_size as nat, 8));
    assert(first.subrange(n + 8, n + 16) =~= little_endian(a as nat, 8));
    assert(second.subrange(n + 8, n + 16) =~= little_endian(c as nat, 8));
    assert(first.subrange(n + 16, n + 20) =~= little_endian(b as nat, 4));
    assert(second.subrange(n + 16, n + 20) =~= little_endian(d as nat, 4));
    vstd::arithmetic::power2::lemma2_to64();
    lemma_little_endian(one.file_size as nat, other.file_size as nat, 8);
    lemma_little_endian(a as nat, c as nat, 8);
    lemma_little_endian(b as nat, d as nat, 4);
}

/// Whether the file at `m` comes before the one at `i` in order of age.
pub open spec fn precedes(files: Seq<Moment>, m: int, i: int) -> bool {
    older(files[m], files[i]) || files[m] == files[i] && m < i
}

/// A file that comes before another ranks before it.
proof fn lemma_rank_follows(files: Seq<Moment>, i: int, j: int, n: int)
    requires
        0 <= i < files.len(),
        0 <= j < files.len(),
        0 <= n <= files.len(),
        precedes(files, i, j),
    ensures
        rank(files, i, n) + (if i < n {
            1int
        } else {
            0
        }) <= rank(files, j, n),
        0 <= rank(files, i, n) <= n,
    decreases n,
{
    if n > 0 {
        lemma_rank_follows(files, i, j, n - 1);
    }
}

/// The rank of a file is below their number.
proof fn lemma_rank_range(files: Seq<Moment>, i: int, n: int)
    requires
        0 <= i < files.len(),
        0 <= n <= files.len(),
    ensures
        0 <= rank(files, i, n),
        rank(files, i, n) + (if i < n {
            1int
        } else {
            0
        }) <= n,
    decreases n,
{
    if n > 0 {
        lemma_rank_range(files, i, n - 1);
    }
}

/// What pruning deletes is no newer than anything it keeps.
pub proof fn law_pruning_keeps_the_newest(files: Seq<Moment>, when: int, keep: int, i: int, j: int)
    requires
        0 <= i < files.len(),
        0 <= j < files.len(),
        is_pruned(files, when, keep, i),
        !is_pruned(files, when, keep, j),
    ensures
        !older(files[j], files[i]),
{
    if older(files[j], files[i]) {
        lemma_rank_follows(files, j, i, files.len() as int);
    }
}

/// Pruning leaves exactly as many as it is asked to keep.
pub proof fn law_pruning_leaves_what_is_kept(files: Seq<Moment>, when: int, keep: int)
    requires
        0 <= keep <= files.len(),
        files.len() > when,
    ensures
        Set::new(|i: int| 0 <= i < files.len() && is_pruned(files, when, keep, i)).len()
            == files.len() - keep,
{
    let n = files.len() as int;
    let all = vstd::set_lib::set_int_range(0, n);
    let rank_of = |i: int| rank(files, i, n);
    vstd::set_lib::lemma_int_range(0, n);
    assert forall|i: int, j: int|
        #![trigger rank_of(i), rank_of(j)]
        all.contains(i) && all.contains(j) && rank_of(i) == rank_of(j) implies i == j by {
        if i != j {
            if precedes(files, i, j) {
                lemma_rank_follows(files, i, j, n);
            } else {
                assert(precedes(files, j, i));
                lemma_rank_follows(files, j, i, n);
            }
        }
    }
    assert(vstd::relations::injective_on(rank_of, all));
    let image = all.map(rank_of);
    vstd::set_lib::lemma_map_size(all, image, rank_of);
    assert forall|r: int| image.contains(r) implies all.contains(r) by {
        let i = choose|i: int| all.contains(i) && rank_of(i) == r;
        lemma_rank_range(files, i, n);
    }
    vstd::set_lib::lemma_subset_equality(image, all);
    let pruned = Set::new(|i: int| 0 <= i < files.len() && is_pruned(files, when, keep, i));
    let low = vstd::set_lib::set_int_range(0, n - keep);
    vstd::set_lib::lemma_int_range(0, n - keep);
    assert(pruned.subset_of(all));
    vstd::set_lib::lemma_len_subset(pruned, all);
    assert(pruned.map(rank_of) =~= low) by {
        assert forall|r: int| low.contains(r) implies pruned.map(rank_of).contains(r) by {
            assert(image.contains(r));
            let i = choose|i: int| all.contains(i) && rank_of(i) == r;
            assert(pruned.contains(i));
        }
        assert forall|r: int| pruned.map(rank_of).contains(r) implies low.contains(r) by {
            let i = choose|i: int| pruned.contains(i) && rank_of(i) == r;
            lemma_rank_range(files, i, n);
        }
    }
    vstd::set_lib::lemma_map_size(pruned, low, rank_of);
}

/// A folder that is not over its limit is left alone.
pub proof fn law_nothing_is_pruned_below_the_limit(files: Seq<Moment>, when: int, keep: int, i: int)
    requires
        files.len() <= when,
    ensures
        !is_pruned(files, when, keep, i),
{
}

/// Two paths are asked for under what is made of different bytes, and so are two times of
/// modification: each can be told from them.
pub proof fn law_another_file_is_mixed_otherwise(
    path: Seq<char>,
    stamp: Stamp,
    other_path: Seq<char>,
    other: Stamp,
)
    requires
        mixed(path, stamp) == mixed(other_path, other),
    ensures
        path == other_path,
        stamp.file_size == other.file_size,
        stamp.modified matches Some(one) ==> (other.modified matches Some(two) ==> (one.secs >= 0
            && two.secs >= 0 ==> one == two)),
{
    let (a, b) = since_epoch(stamp.modified);
    let (c, d) = since_epoch(other.modified);
    lemma_little_endian_len(stamp.file_size as nat, 8);
    lemma_little_endian_len(other.file_size as nat, 8);
    lemma_little_endian_len(a as nat, 8);
    lemma_little_endian_len(c as nat, 8);
    lemma_little_endian_len(b as nat, 4);
    lemma_little_endian_len(d as nat, 4);
    let bytes = mixed(path, stamp);
    let name = vstd::utf8::encode_utf8(path);
    let other_name = vstd::utf8::encode_utf8(other_path);
    assert(bytes.take(bytes.len() - 20) =~= name);
    assert(mixed(other_path, other).take(bytes.len() - 20) =~= other_name);
    vstd::utf8::encode_utf8_decode_utf8(path);
    vstd::utf8::encode_utf8_decode_utf8(other_path);
    law_a_changed_file_is_mixed_anew(path, stamp, other);
}

/// One step of the hash loses nothing: the prime can be divided out again.
proof fn lemma_step_is_reversible(one: int, other: int)
    requires
        0 <= one < 0x1_0000_0000_0000_0000,
        0 <= other < 0x1_0000_0000_0000_0000,
        (one * 0x0000_0100_0000_01b3) % 0x1_0000_0000_0000_0000 == (other * 0x0000_0100_0000_01b3)
            % 0x1_0000_0000_0000_0000,
    ensures
        one == other,
{
    let prime = 0x0000_0100_0000_01b3int;
    let end = 0x1_0000_0000_0000_0000int;
    let inverse = 0xce96_5057_aff6_957bint;
    let times = 887285111055int;
    assert(prime * inverse == 1 + times * end);
    let q = (one * prime) / end;
    let r = (one * prime) % end;
    let p = (other * prime) / end;
    assert(one * prime == end * q + r);
    assert(other * prime == end * p + r);
    let gap = one - other;
    assert(gap * prime == end * (q - p)) by (nonlinear_arith)
        requires
            one * prime == end * q + r,
            other * prime == end * p + r,
            gap == one - other,
    ;
    let k = (q - p) * inverse - gap * times;
    assert(gap == end * k) by (nonlinear_arith)
        requires
            gap * prime == end * (q - p),
            prime * inverse == 1 + times * end,
            k == (q - p) * inverse - gap * times,
    ;
    assert(k == 0) by (nonlinear_arith)
        requires
            gap == end * k,
            -end < gap < end,
            end > 0,
    ;
}

/// Hashes that differ stay different over the same bytes.
proof fn lemma_difference_stays(one: Seq<u8>, other: Seq<u8>, at: int, n: int)
    requires
        0 <= at <= n <= one.len(),
        one.len() == other.len(),
        fnv(one, at) != fnv(other, at),
        forall|i: int| at <= i < n ==> one[i] == other[i],
    ensures
        fnv(one, n) != fnv(other, n),
    decreases n - at,
{
    if at < n {
        lemma_difference_stays(one, other, at, n - 1);
        let a = fnv(one, n - 1);
        let b = fnv(other, n - 1);
        let byte = one[n - 1] as u64;
        assert(a != b ==> (a ^ byte) != (b ^ byte)) by (bit_vector);
        if fnv(one, n) == fnv(other, n) {
            lemma_step_is_reversible((a ^ byte) as int, (b ^ byte) as int);
        }
    }
}

/// A change of one byte, wherever it is, changes the hash.
pub proof fn law_one_changed_byte_changes_the_hash(one: Seq<u8>, other: Seq<u8>, at: int)
    requires
        one.len() == other.len(),
        0 <= at < one.len(),
        one[at] != other[at],
        forall|i: int| 0 <= i < one.len() && i != at ==> one[i] == other[i],
    ensures
        fnv(one, one.len() as int) != fnv(other, other.len() as int),
{
    lemma_same_so_far(one, other, at);
    let a = fnv(one, at);
    let x = one[at] as u64;
    let y = other[at] as u64;
    assert(x != y ==> (a ^ x) != (a ^ y)) by (bit_vector);
    if fnv(one, at + 1) == fnv(other, at + 1) {
        lemma_step_is_reversible((a ^ x) as int, (a ^ y) as int);
    }
    lemma_difference_stays(one, other, at + 1, one.len() as int);
}

proof fn lemma_same_so_far(one: Seq<u8>, other: Seq<u8>, n: int)
    requires
        0 <= n <= one.len(),
        one.len() == other.len(),
        forall|i: int| 0 <= i < n ==> one[i] == other[i],
    ensures
        fnv(one, n) == fnv(other, n),
    decreases n,
{
    if n > 0 {
        lemma_same_so_far(one, other, n - 1);
    }
}

/// The hash of nothing is the FNV offset, and each byte more is mixed in and spread by the FNV
/// prime, in 64 bits.
pub proof fn law_a_byte_is_mixed_in_and_spread(bytes: Seq<u8>, byte: u8)
    ensures
        fnv(Seq::empty(), 0) == 14695981039346656037,
        fnv(bytes.push(byte), bytes.len() + 1int) == ((fnv(bytes, bytes.len() as int) ^ (
        byte as u64)) * 1099511628211) % 18446744073709551616,
{
    let more = bytes.push(byte);
    lemma_longer(bytes, byte, bytes.len() as int);
    assert(more[bytes.len() as int] == byte);
}

proof fn lemma_longer(bytes: Seq<u8>, byte: u8, n: int)
    requires
        0 <= n <= bytes.len(),
    ensures
        fnv(bytes.push(byte), n) == fnv(bytes, n),
    decreases n,
{
    if n > 0 {
        lemma_longer(bytes, byte, n - 1);
    }
}

/// A number is written in sixteens, from the left, with as many digits as are asked for.
pub proof fn law_a_name_is_written_in_sixteens(n: nat, digit: nat, count: nat)
    requires
        digit < 16,
    ensures
        hex(n, count).len() == count,
        hex((16 * n + digit) as nat, (count + 1) as nat) == hex(n, count) + seq![
            seq![
                '0',
                '1',
                '2',
                '3',
                '4',
                '5',
                '6',
                '7',
                '8',
                '9',
                'a',
                'b',
                'c',
                'd',
                'e',
                'f',
            ][digit as int],
        ],
    decreases count,
{
    assert(((16 * n + digit) as nat) / 16 == n && ((16 * n + digit) as nat) % 16 == digit);
    assert(hex((16 * n + digit) as nat, (count + 1) as nat) =~= hex(n, count) + seq![
        hex_digit(digit),
    ]);
    if count > 0 {
        law_a_name_is_written_in_sixteens(n / 16, digit, (count - 1) as nat);
    }
}

/// Two hashes have two names.
pub proof fn law_two_hashes_have_two_names(one: u64, other: u64)
    requires
        hex(one as nat, 16) + ".png"@ == hex(other as nat, 16) + ".png"@,
    ensures
        one == other,
{
    law_a_name_is_written_in_sixteens(one as nat, 0, 16);
    law_a_name_is_written_in_sixteens(other as nat, 0, 16);
    assert((hex(one as nat, 16) + ".png"@).take(16) =~= hex(one as nat, 16));
    assert((hex(other as nat, 16) + ".png"@).take(16) =~= hex(other as nat, 16));
    vstd::arithmetic::power2::lemma2_to64();
    lemma_hex(one as nat, other as nat, 16);
}

proof fn lemma_hex(one: nat, other: nat, count: nat)
    requires
        one < vstd::arithmetic::power2::pow2(4 * count),
        other < vstd::arithmetic::power2::pow2(4 * count),
        hex(one, count) == hex(other, count),
    ensures
        one == other,
    decreases count,
{
    vstd::arithmetic::power2::lemma2_to64();
    if count > 0 {
        vstd::arithmetic::power2::lemma_pow2_adds(4, (4 * (count - 1)) as nat);
        let a = hex(one, count);
        let b = hex(other, count);
        assert(a.last() == hex_digit(one % 16) && b.last() == hex_digit(other % 16));
        assert(a.drop_last() =~= hex(one / 16, (count - 1) as nat));
        assert(b.drop_last() =~= hex(other / 16, (count - 1) as nat));
        lemma_hex(one / 16, other / 16, (count - 1) as nat);
    }
}

} // verus!
