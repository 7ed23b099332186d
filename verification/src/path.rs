//! Windows paths as text: names, stems, extensions and folders.
//!
//! Both separators count, but in a verbatim path, where only the backslash does and a dot is
//! a part like any other. A drive letter with its colon, a device, and a network share with
//! its server belong to the root of a path and are no part of a name.

use vstd::prelude::*;
use crate::text::chars_of;
use crate::text::string_of;

verus! {

/// Whether `c` separates the parts of a path.
pub open spec fn is_separator(c: char) -> bool {
    c == '\\' || c == '/'
}

pub(crate) fn separates(c: char) -> (yes: bool)
    ensures
        yes == is_separator(c),
{
    c == '\\' || c == '/'
}

/// How a path starts. In this order paths are put that start differently.
#[derive(Debug, Clone, Copy, PartialEq, Eq, Structural)]
pub enum Prefix {
    /// `\\?\name`
    Verbatim,
    /// `\\?\UNC\server\share`
    VerbatimShare,
    /// `\\?\C:`
    VerbatimDrive,
    /// `\\.\device`
    Device,
    /// `\\server\share`
    Share,
    /// `C:`
    Drive,
    /// With none of these.
    Nothing,
}

/// Whether a path is to be taken as it is written: it starts with `\\?\`, in backslashes.
pub open spec fn is_verbatim(path: Seq<char>) -> bool {
    &&& path.len() >= 4
    &&& path[0] == '\\'
    &&& path[1] == '\\'
    &&& path[2] == '?'
    &&& path[3] == '\\'
}

/// Whether `c` separates the parts of this path.
pub open spec fn divides(path: Seq<char>, c: char) -> bool {
    c == '\\' || c == '/' && !is_verbatim(path)
}

/// Where the part that starts at `at` ends: at the next separator, or at the end.
pub open spec fn part_end(path: Seq<char>, at: int) -> int
    decreases path.len() - at,
{
    if at >= path.len() || divides(path, path[at]) {
        at
    } else {
        part_end(path, at + 1)
    }
}

/// Whether a verbatim path goes on to a network share.
pub open spec fn names_share(path: Seq<char>) -> bool {
    &&& path.len() >= 8
    &&& path[4] == 'U'
    &&& path[5] == 'N'
    &&& path[6] == 'C'
    &&& is_separator(path[7])
}

/// Whether the path starts as that of a device does.
pub open spec fn is_device(path: Seq<char>) -> bool {
    &&& path.len() >= 4
    &&& is_separator(path[0])
    &&& is_separator(path[1])
    &&& path[2] == '.'
    &&& is_separator(path[3])
}

/// How many characters at the front name a network share: two separators, a server, a
/// separator and a share. Zero for any other path.
pub open spec fn share_len(path: Seq<char>) -> int {
    if path.len() >= 2 && is_separator(path[0]) && is_separator(path[1]) {
        let server = part_end(path, 2);
        let share = part_end(path, server + 1);
        if server > 2 && share > server + 1 {
            share
        } else {
            0
        }
    } else {
        0
    }
}

/// Whether a drive letter and a colon stand at a place.
pub open spec fn has_drive_at(path: Seq<char>, at: int) -> bool {
    path.len() >= at + 2 && path[at + 1] == ':' && ('a' <= path[at] <= 'z' || 'A' <= path[at]
        <= 'Z')
}

/// Whether the path starts with a drive letter and a colon.
pub open spec fn has_drive(path: Seq<char>) -> bool {
    has_drive_at(path, 0)
}

/// How a path starts.
pub open spec fn prefix_of(path: Seq<char>) -> Prefix {
    if is_verbatim(path) {
        if names_share(path) {
            Prefix::VerbatimShare
        } else if has_drive_at(path, 4) && (path.len() == 6 || is_separator(path[6])) {
            Prefix::VerbatimDrive
        } else {
            Prefix::Verbatim
        }
    } else if is_device(path) {
        Prefix::Device
    } else if share_len(path) > 0 {
        Prefix::Share
    } else if has_drive(path) {
        Prefix::Drive
    } else {
        Prefix::Nothing
    }
}

/// How many characters at the front stand for a drive, a share, a device, or what a verbatim
/// path starts with.
pub open spec fn prefix_len(path: Seq<char>) -> int {
    match prefix_of(path) {
        Prefix::Verbatim | Prefix::Device => part_end(path, 4),
        Prefix::VerbatimShare => {
            let server = part_end(path, 8);
            let share = part_end(path, server + 1);
            if share > server + 1 {
                share
            } else {
                server
            }
        },
        Prefix::VerbatimDrive => 6,
        Prefix::Share => share_len(path),
        Prefix::Drive => 2,
        Prefix::Nothing => 0,
    }
}

/// How many characters at the front are the root: the prefix and the separator behind it.
pub open spec fn root_len(path: Seq<char>) -> int {
    let prefix = prefix_len(path);
    if prefix < path.len() && is_separator(path[prefix]) {
        prefix + 1
    } else {
        prefix
    }
}

/// The end of what precedes `end` without separators and parts that are a single dot,
/// neither of which names anything. The root stays whole, and so do the dots of a verbatim
/// path.
pub open spec fn solid_end(path: Seq<char>, end: int) -> int
    decreases end,
{
    if end <= root_len(path) || end <= 0 {
        end
    } else if divides(path, path[end - 1]) {
        solid_end(path, end - 1)
    } else if path[end - 1] == '.' && end - 1 > 0 && is_separator(path[end - 2]) && !is_verbatim(
        path,
    ) {
        solid_end(path, end - 1)
    } else {
        end
    }
}

/// Where the part that ends at `end` starts.
pub open spec fn part_start(path: Seq<char>, end: int) -> int
    decreases end,
{
    if end <= root_len(path) || end <= 0 || divides(path, path[end - 1]) {
        end
    } else {
        part_start(path, end - 1)
    }
}

/// Where the last part of a path starts and ends.
pub open spec fn last_part(path: Seq<char>) -> (int, int) {
    let end = solid_end(path, path.len() as int);
    (part_start(path, end), end)
}

/// The name a path ends in, if it ends in one.
pub open spec fn name_of(path: Seq<char>) -> Option<Seq<char>> {
    let (start, end) = last_part(path);
    let part = path.subrange(start, end);
    if part.len() == 0 || part == seq!['.'] || part == seq!['.', '.'] {
        None
    } else {
        Some(part)
    }
}

/// Whether a part is a single dot right behind a drive letter, which adds nothing to it.
pub open spec fn is_idle(path: Seq<char>, start: int, end: int) -> bool {
    prefix_of(path) is Drive && start == 2 && end == 3 && path[2] == '.'
}

/// What a path is without its last part: the folder it names something in.
pub open spec fn parent_of(path: Seq<char>) -> Option<Seq<char>> {
    let (start, end) = last_part(path);
    if start >= end || is_idle(path, start, end) {
        None
    } else {
        Some(path.take(solid_end(path, start)))
    }
}

/// Where the last dot among the first `n` characters stands, or -1.
pub open spec fn last_dot(name: Seq<char>, n: int) -> int
    decreases n,
{
    if n <= 0 {
        -1
    } else if name[n - 1] == '.' {
        n - 1
    } else {
        last_dot(name, n - 1)
    }
}

/// A name without its extension. A dot in front starts no extension.
pub open spec fn stem_of_name(name: Seq<char>) -> Seq<char> {
    let dot = last_dot(name, name.len() as int);
    if dot <= 0 {
        name
    } else {
        name.take(dot)
    }
}

/// What follows the last dot of a name.
pub open spec fn extension_of_name(name: Seq<char>) -> Option<Seq<char>> {
    let dot = last_dot(name, name.len() as int);
    if dot <= 0 {
        None
    } else {
        Some(name.skip(dot + 1))
    }
}

/// The stem of the name a path ends in.
pub open spec fn stem_of(path: Seq<char>) -> Option<Seq<char>> {
    match name_of(path) {
        Some(name) => Some(stem_of_name(name)),
        None => None,
    }
}

/// The extension of the name a path ends in.
pub open spec fn extension_of(path: Seq<char>) -> Option<Seq<char>> {
    match name_of(path) {
        Some(name) => extension_of_name(name),
        None => None,
    }
}

/// A name placed in a folder. A drive letter alone takes no separator: the name is then
/// meant in the current folder of that drive.
pub open spec fn joined(folder: Seq<char>, name: Seq<char>) -> Seq<char> {
    if folder.len() == 0 || divides(folder, folder.last()) || folder.len() == 2 && has_drive(
        folder,
    ) {
        folder + name
    } else {
        folder.push('\\') + name
    }
}

/// Whether a path is to be taken as it is written.
pub(crate) fn starts_verbatim(path: &Vec<char>) -> (verbatim: bool)
    ensures
        verbatim == is_verbatim(path@),
{
    path.len() >= 4 && path[0] == '\\' && path[1] == '\\' && path[2] == '?' && path[3] == '\\'
}

/// Whether `c` separates the parts of a path of one kind or the other.
pub(crate) fn divides_parts(verbatim: bool, c: char) -> (yes: bool)
    ensures
        yes == (c == '\\' || c == '/' && !verbatim),
{
    c == '\\' || c == '/' && !verbatim
}

pub(crate) fn end_of_part(path: &Vec<char>, verbatim: bool, at: usize) -> (end: usize)
    requires
        at <= path@.len(),
        verbatim == is_verbatim(path@),
    ensures
        end == part_end(path@, at as int),
        at <= end <= path@.len(),
{
    let mut end: usize = at;
    while end < path.len() && !divides_parts(verbatim, path[end])
        invariant
            at <= end <= path@.len(),
            verbatim == is_verbatim(path@),
            part_end(path@, at as int) == part_end(path@, end as int),
        decreases path@.len() - end,
    {
        end += 1;
    }
    end
}

/// A part ends within the path, and not before it starts.
pub proof fn lemma_part_end(path: Seq<char>, at: int)
    requires
        0 <= at <= path.len(),
    ensures
        at <= part_end(path, at) <= path.len(),
    decreases path.len() - at,
{
    if at < path.len() && !divides(path, path[at]) {
        lemma_part_end(path, at + 1);
    }
}

/// A prefix lies within its path.
pub proof fn lemma_prefix(path: Seq<char>)
    ensures
        0 <= prefix_len(path) <= path.len(),
        prefix_len(path) <= root_len(path) <= path.len(),
{
    if path.len() >= 2 {
        lemma_part_end(path, 2);
        if part_end(path, 2) < path.len() {
            lemma_part_end(path, part_end(path, 2) + 1);
        }
    }
    if path.len() >= 4 {
        lemma_part_end(path, 4);
    }
    if path.len() >= 8 {
        lemma_part_end(path, 8);
        if part_end(path, 8) < path.len() {
            lemma_part_end(path, part_end(path, 8) + 1);
        }
    }
}

fn length_of_share(path: &Vec<char>) -> (share: usize)
    requires
        !is_verbatim(path@),
    ensures
        share == share_len(path@),
        share <= path@.len(),
{
    if path.len() >= 2 && separates(path[0]) && separates(path[1]) {
        let server: usize = end_of_part(path, false, 2);
        if server < path.len() {
            let share: usize = end_of_part(path, false, server + 1);
            if server > 2 && share > server + 1 {
                return share;
            }
        }
    }
    0
}

fn drive_stands_at(path: &Vec<char>, at: usize) -> (stands: bool)
    requires
        at <= 4,
    ensures
        stands == has_drive_at(path@, at as int),
{
    path.len() >= at + 2 && path[at + 1] == ':' && (('a' <= path[at] && path[at] <= 'z') || ('A'
        <= path[at] && path[at] <= 'Z'))
}

/// How a path starts, and for how many characters.
pub(crate) fn start_of(path: &Vec<char>) -> (start: (Prefix, usize))
    ensures
        start.0 == prefix_of(path@),
        start.1 == prefix_len(path@),
        start.1 <= path@.len(),
{
    if starts_verbatim(path) {
        if path.len() >= 8 && path[4] == 'U' && path[5] == 'N' && path[6] == 'C' && separates(
            path[7],
        ) {
            let server: usize = end_of_part(path, true, 8);
            if server < path.len() {
                let share: usize = end_of_part(path, true, server + 1);
                if share > server + 1 {
                    return (Prefix::VerbatimShare, share);
                }
            }
            (Prefix::VerbatimShare, server)
        } else if drive_stands_at(path, 4) && (path.len() == 6 || separates(path[6])) {
            (Prefix::VerbatimDrive, 6)
        } else {
            (Prefix::Verbatim, end_of_part(path, true, 4))
        }
    } else if path.len() >= 4 && separates(path[0]) && separates(path[1]) && path[2] == '.'
        && separates(path[3]) {
        (Prefix::Device, end_of_part(path, false, 4))
    } else {
        let share: usize = length_of_share(path);
        if share > 0 {
            (Prefix::Share, share)
        } else if drive_stands_at(path, 0) {
            (Prefix::Drive, 2)
        } else {
            (Prefix::Nothing, 0)
        }
    }
}

fn length_of_root(path: &Vec<char>) -> (root: usize)
    ensures
        root == root_len(path@),
        root <= path@.len(),
{
    let (_, prefix) = start_of(path);
    if prefix < path.len() && separates(path[prefix]) {
        prefix + 1
    } else {
        prefix
    }
}

fn find_solid_end(path: &Vec<char>, root: usize, from: usize) -> (end: usize)
    requires
        from <= path@.len(),
        root == root_len(path@),
    ensures
        end == solid_end(path@, from as int),
        end <= from,
{
    let verbatim = starts_verbatim(path);
    let mut end: usize = from;
    while end > root && (divides_parts(verbatim, path[end - 1]) || path[end - 1] == '.' && end - 1
        > 0 && separates(path[end - 2]) && !verbatim)
        invariant
            verbatim == is_verbatim(path@),
            end <= from <= path@.len(),
            root == root_len(path@),
            solid_end(path@, from as int) == solid_end(path@, end as int),
        decreases end,
    {
        end -= 1;
    }
    end
}

fn find_part_start(path: &Vec<char>, root: usize, end: usize) -> (start: usize)
    requires
        end <= path@.len(),
        root == root_len(path@),
    ensures
        start == part_start(path@, end as int),
        start <= end,
{
    let verbatim = starts_verbatim(path);
    let mut start: usize = end;
    while start > root && !divides_parts(verbatim, path[start - 1])
        invariant
            verbatim == is_verbatim(path@),
            start <= end <= path@.len(),
            root == root_len(path@),
            part_start(path@, end as int) == part_start(path@, start as int),
        decreases start,
    {
        start -= 1;
    }
    start
}

/// The name a path ends in.
pub fn file_name(path: &str) -> (name: Option<String>)
    ensures
        name is Some == (name_of(path@) is Some),
        name matches Some(name) ==> name_of(path@) == Some(name@),
{
    let path = chars_of(path);
    let root: usize = length_of_root(&path);
    let end: usize = find_solid_end(&path, root, path.len());
    let start: usize = find_part_start(&path, root, end);
    let ghost part = path@.subrange(start as int, end as int);
    if start == end || end - start == 1 && path[start] == '.' || end - start == 2 && path[start]
        == '.' && path[start + 1] == '.' {
        assert(part.len() == 0 || part =~= seq!['.'] || part =~= seq!['.', '.']);
        return None;
    }
    assert(part.len() == 1 ==> part[0] != '.');
    assert(part.len() == 2 ==> part[0] != '.' || part[1] != '.');
    Some(string_of(vstd::slice::slice_subrange(path.as_slice(), start, end)))
}

/// The folder a path names something in.
pub fn parent(path: &str) -> (folder: Option<String>)
    ensures
        folder is Some == (parent_of(path@) is Some),
        folder matches Some(folder) ==> parent_of(path@) == Some(folder@),
{
    let path = chars_of(path);
    let root: usize = length_of_root(&path);
    let end: usize = find_solid_end(&path, root, path.len());
    let start: usize = find_part_start(&path, root, end);
    if start >= end {
        return None;
    }
    if start == 2 && end == 3 && path[2] == '.' {
        if let (Prefix::Drive, _) = start_of(&path) {
            return None;
        }
    }
    let stop: usize = find_solid_end(&path, root, start);
    Some(string_of(vstd::slice::slice_subrange(path.as_slice(), 0, stop)))
}

fn find_last_dot(name: &Vec<char>) -> (dot: Option<usize>)
    ensures
        dot matches Some(dot) ==> dot == last_dot(name@, name@.len() as int) && dot < name@.len(),
        dot is None ==> last_dot(name@, name@.len() as int) == -1,
{
    let mut n: usize = name.len();
    while n > 0
        invariant
            n <= name@.len(),
            last_dot(name@, name@.len() as int) == last_dot(name@, n as int),
        decreases n,
    {
        if name[n - 1] == '.' {
            return Some(n - 1);
        }
        n -= 1;
    }
    None
}

/// The name a path ends in without its extension.
pub fn file_stem(path: &str) -> (stem: Option<String>)
    ensures
        stem is Some == (stem_of(path@) is Some),
        stem matches Some(stem) ==> stem_of(path@) == Some(stem@),
{
    match file_name(path) {
        None => None,
        Some(name) => {
            let chars = chars_of(name.as_str());
            match find_last_dot(&chars) {
                Some(dot) => if dot == 0 {
                    Some(name)
                } else {
                    Some(string_of(vstd::slice::slice_subrange(chars.as_slice(), 0, dot)))
                },
                None => Some(name),
            }
        },
    }
}

/// The extension of the name a path ends in, without the dot.
pub fn extension(path: &str) -> (ext: Option<String>)
    ensures
        ext is Some == (extension_of(path@) is Some),
        ext matches Some(ext) ==> extension_of(path@) == Some(ext@),
{
    match file_name(path) {
        None => None,
        Some(name) => {
            let chars = chars_of(name.as_str());
            match find_last_dot(&chars) {
                Some(dot) => if dot == 0 {
                    None
                } else {
                    let count: usize = chars.len();
                    assert(chars@.subrange(dot + 1, count as int) =~= chars@.skip(dot + 1));
                    Some(
                        string_of(
                            vstd::slice::slice_subrange(chars.as_slice(), dot + 1, count),
                        ),
                    )
                },
                None => None,
            }
        },
    }
}

/// `name` placed in `folder`.
pub fn join(folder: &str, name: &str) -> (path: String)
    ensures
        path@ == joined(folder@, name@),
{
    let chars = chars_of(folder);
    let bare = chars.len() == 0 || divides_parts(
        starts_verbatim(&chars),
        chars[chars.len() - 1],
    ) || chars.len() == 2 && drive_stands_at(&chars, 0);
    let mut path = folder.to_owned();
    if !bare {
        path.push('\\');
    }
    path.append(name);
    path
}

/// The parts that a path names from `at` on, each with a separator behind it. Empty parts
/// name nothing, nor does a single dot, but in a verbatim path.
pub open spec fn parts_from(path: Seq<char>, at: int) -> Seq<char>
    decreases path.len() - at,
{
    if at < 0 || at >= path.len() {
        Seq::empty()
    } else if divides(path, path[at]) {
        parts_from(path, at + 1)
    } else {
        proof {
            lemma_part_end(path, at + 1);
        }
        let end = part_end(path, at);
        let part = path.subrange(at, end);
        if part == seq!['.'] && !is_verbatim(path) {
            parts_from(path, end)
        } else {
            part.push('\\') + parts_from(path, end)
        }
    }
}

/// A letter in upper case.
pub open spec fn raised(c: char) -> char {
    if 'a' <= c <= 'z' {
        (c as int - 32) as char
    } else {
        c
    }
}

/// A character of the prefix of a path, with a drive letter in upper case and one separator
/// for both.
pub open spec fn plain_at(path: Seq<char>, i: int) -> char {
    match prefix_of(path) {
        Prefix::Verbatim => path[i],
        Prefix::VerbatimShare => if i == 7 {
            '\\'
        } else {
            path[i]
        },
        Prefix::VerbatimDrive => if i == 4 {
            raised(path[i])
        } else {
            path[i]
        },
        Prefix::Drive => raised(path[i]),
        _ => if is_separator(path[i]) {
            '\\'
        } else {
            path[i]
        },
    }
}

/// The prefix of a path, one text for all the ways of writing it.
pub open spec fn plain_prefix(path: Seq<char>) -> Seq<char> {
    Seq::new(prefix_len(path) as nat, |i: int| plain_at(path, i))
}

fn raise(c: char) -> (upper: char)
    ensures
        upper == raised(c),
{
    if 'a' <= c && c <= 'z' {
        ((c as u8) - 32) as char
    } else {
        c
    }
}

pub(crate) fn plain_char(path: &Vec<char>, prefix: Prefix, i: usize) -> (c: char)
    requires
        prefix == prefix_of(path@),
        i < path@.len(),
    ensures
        c == plain_at(path@, i as int),
{
    let c = path[i];
    match prefix {
        Prefix::Verbatim => c,
        Prefix::VerbatimShare => if i == 7 {
            '\\'
        } else {
            c
        },
        Prefix::VerbatimDrive => if i == 4 {
            raise(c)
        } else {
            c
        },
        Prefix::Drive => raise(c),
        _ => if separates(c) {
            '\\'
        } else {
            c
        },
    }
}

/// Whether a path starts at the root of its drive, device or share.
pub open spec fn is_rooted(path: Seq<char>) -> bool {
    ||| prefix_of(path) is Share || prefix_of(path) is Device
    ||| prefix_len(path) < path.len() && is_separator(path[prefix_len(path)])
}

/// Whether a path starts at the root of its drive, device or share.
pub(crate) fn starts_at_root(path: &Vec<char>, prefix: Prefix, length: usize) -> (rooted: bool)
    requires
        prefix == prefix_of(path@),
        length == prefix_len(path@),
    ensures
        rooted == is_rooted(path@),
{
    prefix == Prefix::Share || prefix == Prefix::Device || length < path.len() && separates(
        path[length],
    )
}

/// Whether a path starts at the current folder and says so with a dot.
pub open spec fn is_dotted(path: Seq<char>) -> bool {
    &&& path.len() >= 1
    &&& path[0] == '.'
    &&& path.len() == 1 || is_separator(path[1])
}

/// One text for all the ways of writing a path: which separators stand in it and how
/// many, and whether one trails, makes no difference, nor do dots but for one in front and
/// those of a verbatim path, nor the case of a drive letter.
pub open spec fn canonical_of(path: Seq<char>) -> Seq<char> {
    plain_prefix(path) + (if is_rooted(path) {
        seq!['\\']
    } else if prefix_of(path) is Nothing && is_dotted(path) {
        seq!['.', '\\']
    } else {
        Seq::empty()
    }) + parts_from(path, prefix_len(path))
}

fn push_parts(path: &Vec<char>, from: usize, out: &mut Vec<char>)
    requires
        from <= path@.len(),
    ensures
        final(out)@ == old(out)@ + parts_from(path@, from as int),
{
    let verbatim = starts_verbatim(path);
    let mut at: usize = from;
    let ghost before = out@;
    assert(out@ + parts_from(path@, from as int) =~= before + parts_from(path@, at as int));
    while at < path.len()
        invariant
            verbatim == is_verbatim(path@),
            from <= at <= path@.len(),
            out@ + parts_from(path@, at as int) == before + parts_from(path@, from as int),
        decreases path@.len() - at,
    {
        if divides_parts(verbatim, path[at]) {
            at += 1;
        } else {
            proof {
                lemma_part_end(path@, at + 1);
            }
            let end: usize = end_of_part(path, verbatim, at);
            let ghost part = path@.subrange(at as int, end as int);
            let ghost rest = parts_from(path@, end as int);
            let ghost sofar = out@;
            if end - at == 1 && path[at] == '.' && !verbatim {
                assert(part =~= seq!['.']);
            } else {
                assert(part.len() == 1 ==> part[0] != '.' || verbatim);
                let mut i: usize = at;
                while i < end
                    invariant
                        at <= i <= end <= path@.len(),
                        out@ == sofar + path@.subrange(at as int, i as int),
                    decreases end - i,
                {
                    out.push(path[i]);
                    i += 1;
                    assert(out@ =~= sofar + path@.subrange(at as int, i as int));
                }
                out.push('\\');
                assert(out@ + rest =~= sofar + (part.push('\\') + rest));
            }
            at = end;
        }
    }
    assert(out@ + parts_from(path@, at as int) =~= out@);
}

/// The one text that stands for all the ways of writing `path`.
pub fn canonical(path: &str) -> (text: String)
    ensures
        text@ == canonical_of(path@),
{
    let path = chars_of(path);
    let (prefix, length) = start_of(&path);
    let mut out: Vec<char> = Vec::new();
    let mut i: usize = 0;
    while i < length
        invariant
            i <= length <= path@.len(),
            prefix == prefix_of(path@),
            out@ == Seq::new(i as nat, |k: int| plain_at(path@, k)),
        decreases length - i,
    {
        let ghost before = out@;
        out.push(plain_char(&path, prefix, i));
        i += 1;
        assert(out@ =~= Seq::new(i as nat, |k: int| plain_at(path@, k)));
    }
    let ghost front = out@;
    assert(front =~= plain_prefix(path@));
    if starts_at_root(&path, prefix, length) {
        out.push('\\');
        assert(out@ =~= front + seq!['\\']);
    } else if prefix == Prefix::Nothing && path.len() >= 1 && path[0] == '.' && (path.len() == 1
        || separates(path[1])) {
        out.push('.');
        out.push('\\');
        assert(out@ =~= front + seq!['.', '\\']);
    } else {
        assert(out@ =~= front + Seq::<char>::empty());
    }
    push_parts(&path, length, &mut out);
    string_of(out.as_slice())
}

/// A part holds no separator.
proof fn lemma_part_is_whole(path: Seq<char>, end: int)
    requires
        end <= path.len(),
    ensures
        part_start(path, end) <= end,
        forall|i: int| part_start(path, end) <= i < end ==> !divides(path, path[i]),
    decreases end,
{
    if end > root_len(path) && end > 0 && !divides(path, path[end - 1]) {
        lemma_part_is_whole(path, end - 1);
    }
}

/// A solid end is no further than where the search began.
proof fn lemma_solid_end(path: Seq<char>, end: int)
    requires
        0 <= end <= path.len(),
    ensures
        0 <= solid_end(path, end) <= end,
    decreases end,
{
    if end > root_len(path) && end > 0 {
        if divides(path, path[end - 1]) {
            lemma_solid_end(path, end - 1);
        } else if path[end - 1] == '.' && end - 1 > 0 && is_separator(path[end - 2])
            && !is_verbatim(path) {
            lemma_solid_end(path, end - 1);
        }
    }
}

/// A name holds no separator of its path.
pub proof fn lemma_name_is_whole(path: Seq<char>)
    ensures
        name_of(path) matches Some(name) ==> forall|i: int|
            0 <= i < name.len() ==> !divides(path, #[trigger] name[i]),
{
    lemma_prefix(path);
    let end = solid_end(path, path.len() as int);
    lemma_solid_end(path, path.len() as int);
    lemma_part_is_whole(path, end);
    lemma_part_from(path, end);
    if let Some(name) = name_of(path) {
        let start = part_start(path, end);
        assert(0 <= root_len(path) <= start);
        assert forall|i: int| 0 <= i < name.len() implies !divides(path, #[trigger] name[i]) by {
            assert(name[i] == path[start + i]);
        }
    }
}

/// A part of a path starts within it.
proof fn lemma_part_from(path: Seq<char>, end: int)
    requires
        end <= path.len(),
    ensures
        part_start(path, end) >= root_len(path) || part_start(path, end) == end,
    decreases end,
{
    if end > root_len(path) && end > 0 && !divides(path, path[end - 1]) {
        lemma_part_from(path, end - 1);
    }
}

/// A part without separators that ends a path, behind a separator or the root, starts
/// where it is put.
proof fn lemma_part_put(path: Seq<char>, start: int, end: int)
    requires
        root_len(path) <= start <= end <= path.len(),
        start == root_len(path) || start > 0 && divides(path, path[start - 1]),
        forall|i: int| start <= i < end ==> !is_separator(path[i]),
    ensures
        part_start(path, end) == start,
    decreases end - start,
{
    lemma_prefix(path);
    if start < end {
        lemma_part_put(path, start, end - 1);
    }
}

/// A name that is put in a folder is the name of what comes of it, as long as the folder
/// is whole and the name does not run into its root.
pub proof fn law_a_joined_name_is_the_name(folder: Seq<char>, name: Seq<char>)
    requires
        name.len() > 0,
        forall|i: int| 0 <= i < name.len() ==> !is_separator(#[trigger] name[i]),
        name.last() != '.',
        folder.len() > 0,
        root_len(joined(folder, name)) <= joined(folder, name).len() - name.len(),
    ensures
        name_of(joined(folder, name)) == Some(name),
{
    let path = joined(folder, name);
    let start = path.len() - name.len();
    lemma_prefix(path);
    assert forall|i: int| start <= i < path.len() implies !is_separator(path[i]) by {
        assert(path[i] == name[i - start]);
    }
    assert forall|i: int| 0 <= i < folder.len() implies path[i] == folder[i] by {}
    assert(path[path.len() - 1] == name.last());
    lemma_stays_verbatim(folder, name);
    assert(solid_end(path, path.len() as int) == path.len());
    if divides(folder, folder.last()) {
        assert(path[start - 1] == folder.last());
    } else if folder.len() == 2 && has_drive(folder) {
        assert(path[0] == folder[0] && path[1] == folder[1]);
        assert(start == 2);
        assert(!is_separator(path[0]));
        assert(prefix_of(path) is Drive);
        assert(root_len(path) == 2);
    } else {
        assert(path[start - 1] == '\\');
    }
    lemma_part_put(path, start, path.len() as int);
    assert(path.subrange(start, path.len() as int) =~= name);
}

/// A name that does not run into the root of its folder does not make the path verbatim.
proof fn lemma_stays_verbatim(folder: Seq<char>, name: Seq<char>)
    requires
        name.len() > 0,
        forall|i: int| 0 <= i < name.len() ==> !is_separator(#[trigger] name[i]),
        folder.len() > 0,
        root_len(joined(folder, name)) <= joined(folder, name).len() - name.len(),
    ensures
        is_verbatim(joined(folder, name)) == is_verbatim(folder),
{
    let path = joined(folder, name);
    let start = path.len() - name.len();
    lemma_prefix(path);
    assert forall|i: int| start <= i < path.len() implies !is_separator(path[i]) by {
        assert(path[i] == name[i - start]);
    }
    assert forall|i: int| 0 <= i < folder.len() implies path[i] == folder[i] by {}
    if is_verbatim(path) && !is_verbatim(folder) {
        // The fourth character is the separator that was put in.
        assert(start == 4);
        lemma_part_whole(path, 4, path.len() as int);
        if prefix_of(path) is VerbatimShare {
            assert(is_separator(path[7]));
        }
        assert(prefix_len(path) == path.len());
    }
}

/// A part without separators up to the end of a path ends there.
proof fn lemma_part_whole(path: Seq<char>, at: int, end: int)
    requires
        0 <= at <= end == path.len(),
        forall|i: int| at <= i < end ==> !is_separator(path[i]),
    ensures
        part_end(path, at) == end,
    decreases end - at,
{
    if at < end {
        lemma_part_whole(path, at + 1, end);
    }
}

/// Where the last dot stands.
proof fn lemma_last_dot(name: Seq<char>, n: int, at: int)
    requires
        -1 <= at < n <= name.len(),
        at >= 0 ==> name[at] == '.',
        forall|i: int| at < i < n ==> name[i] != '.',
    ensures
        last_dot(name, n) == at,
    decreases n,
{
    if n > 0 && at < n - 1 {
        lemma_last_dot(name, n - 1, at);
    }
}

/// The extension of a name is what follows its last dot, and the stem is what goes before it. A
/// name without a dot, or with none but the one it starts with, has no extension.
pub proof fn law_an_extension_follows_the_last_dot(stem: Seq<char>, extension: Seq<char>)
    requires
        !extension.contains('.'),
    ensures
        stem.len() > 0 ==> extension_of_name(stem + seq!['.'] + extension) == Some(extension),
        stem.len() > 0 ==> stem_of_name(stem + seq!['.'] + extension) == stem,
        extension_of_name(extension) is None,
        stem_of_name(extension) == extension,
        extension_of_name(seq!['.'] + extension) is None,
        stem_of_name(seq!['.'] + extension) == seq!['.'] + extension,
{
    assert forall|i: int| 0 <= i < extension.len() implies extension[i] != '.' by {
        assert(extension.contains(extension[i]));
    }
    let name = stem + seq!['.'] + extension;
    lemma_last_dot(name, name.len() as int, stem.len() as int);
    assert(name.skip(stem.len() + 1int) =~= extension);
    assert(name.take(stem.len() as int) =~= stem);
    if extension.len() > 0 {
        lemma_last_dot(extension, extension.len() as int, -1);
    }
    let hidden = seq!['.'] + extension;
    lemma_last_dot(hidden, hidden.len() as int, 0);
}

/// A path on a drive is a folder and a name: the name is what follows the last separator, of
/// either kind, and the folder is what goes before it.
pub proof fn law_a_path_is_a_folder_and_a_name(
    drive: char,
    slash: char,
    folder: Seq<char>,
    last: char,
    name: Seq<char>,
)
    requires
        'a' <= drive <= 'z' || 'A' <= drive <= 'Z',
        slash == '\\' || slash == '/',
        last == '\\' || last == '/',
        name.len() > 0,
        forall|i: int| 0 <= i < name.len() ==> #[trigger] name[i] != '\\' && name[i] != '/',
        name[name.len() - 1] != '.',
        folder.len() > 0,
        folder[folder.len() - 1] != '\\' && folder[folder.len() - 1] != '/',
        folder[folder.len() - 1] != '.',
    ensures
        name_of(seq![drive, ':', slash] + folder + seq![last] + name) == Some(name),
        parent_of(seq![drive, ':', slash] + folder + seq![last] + name) == Some(
            seq![drive, ':', slash] + folder,
        ),
        name_of(seq![drive, ':', slash] + name) == Some(name),
        parent_of(seq![drive, ':', slash] + name) == Some(seq![drive, ':', slash]),
        name_of(seq![drive, ':', slash]) is None,
        parent_of(seq![drive, ':', slash]) is None,
{
    let head = seq![drive, ':', slash];
    let path = head + folder + seq![last] + name;
    assert(path[0] == drive && path[1] == ':' && path[2] == slash);
    assert(root_len(path) == 3);
    let start = path.len() - name.len();
    assert forall|i: int| start <= i < path.len() implies !is_separator(path[i]) by {
        assert(path[i] == name[i - start]);
    }
    assert(path[path.len() - 1] == name[name.len() - 1]);
    assert(path[start - 1] == last);
    assert(path[start - 2] == folder[folder.len() - 1]);
    assert(solid_end(path, path.len() as int) == path.len());
    lemma_part_put(path, start, path.len() as int);
    assert(path.subrange(start, path.len() as int) =~= name);
    assert(solid_end(path, start - 1) == start - 1);
    assert(solid_end(path, start) == start - 1);
    assert(path.take(start - 1) =~= head + folder);
    let top = head + name;
    assert(top[0] == drive && top[1] == ':' && top[2] == slash);
    assert(root_len(top) == 3);
    assert forall|i: int| 3 <= i < top.len() implies !is_separator(top[i]) by {
        assert(top[i] == name[i - 3]);
    }
    assert(top[top.len() - 1] == name[name.len() - 1]);
    assert(solid_end(top, top.len() as int) == top.len());
    lemma_part_put(top, 3, top.len() as int);
    assert(top.subrange(3, top.len() as int) =~= name);
    assert(solid_end(top, 3) == 3);
    assert(top.take(3) =~= head);
    assert(head[0] == drive && head[1] == ':' && head[2] == slash);
    assert(root_len(head) == 3);
}

/// A name alone is the name of its path, in the folder that is at hand.
pub proof fn law_a_name_alone_is_a_path(name: Seq<char>)
    requires
        name.len() > 0,
        forall|i: int| 0 <= i < name.len() ==> #[trigger] name[i] != '\\' && name[i] != '/',
        name[name.len() - 1] != '.',
        name.len() >= 2 ==> name[1] != ':',
    ensures
        name_of(name) == Some(name),
        parent_of(name) == Some(Seq::<char>::empty()),
{
    assert(name[0] != '\\' && name[0] != '/');
    assert(root_len(name) == 0);
    lemma_part_put(name, 0, name.len() as int);
    assert(name.subrange(0, name.len() as int) =~= name);
    assert(name.take(0) =~= Seq::<char>::empty());
}

/// A name is put behind its folder with one separator between them.
pub proof fn law_one_separator_joins(folder: Seq<char>, name: Seq<char>)
    requires
        folder.len() > 2,
    ensures
        folder[folder.len() - 1] == '\\' ==> joined(folder, name) == folder + name,
        folder[folder.len() - 1] != '\\' && folder[folder.len() - 1] != '/' ==> joined(
            folder,
            name,
        ) == folder + seq!['\\'] + name,
        joined(Seq::empty(), name) == name,
{
    assert(folder.push('\\') + name =~= folder + seq!['\\'] + name);
    assert(Seq::<char>::empty() + name =~= name);
}

/// Whether two paths are written with the same characters from `at` on, but for which separators
/// they use.
spec fn alike(one: Seq<char>, other: Seq<char>, at: int) -> bool {
    &&& one.len() == other.len()
    &&& !is_verbatim(one)
    &&& !is_verbatim(other)
    &&& forall|i: int|
        at <= i < one.len() ==> #[trigger] one[i] == other[i] || is_separator(one[i])
            && is_separator(other[i])
}

proof fn lemma_alike_ends(one: Seq<char>, other: Seq<char>, at: int)
    requires
        0 <= at,
        alike(one, other, at),
    ensures
        part_end(one, at) == part_end(other, at),
    decreases one.len() - at,
{
    if at < one.len() {
        assert(one[at] == one[at]);
        if !divides(one, one[at]) {
            lemma_alike_ends(one, other, at + 1);
        }
    }
}

proof fn lemma_within_a_part(path: Seq<char>, at: int, i: int)
    requires
        0 <= at <= i < part_end(path, at),
        at <= path.len(),
    ensures
        !divides(path, path[i]),
    decreases path.len() - at,
{
    lemma_part_end(path, at);
    if at < i {
        lemma_within_a_part(path, at + 1, i);
    }
}

proof fn lemma_alike_parts(one: Seq<char>, other: Seq<char>, at: int)
    requires
        0 <= at,
        alike(one, other, at),
    ensures
        parts_from(one, at) == parts_from(other, at),
    decreases one.len() - at,
{
    if at < one.len() {
        assert(one[at] == one[at]);
        if divides(one, one[at]) {
            lemma_alike_parts(one, other, at + 1);
        } else {
            lemma_alike_ends(one, other, at);
            lemma_part_end(one, at + 1);
            let end = part_end(one, at);
            assert(end > at);
            assert forall|i: int| at <= i < end implies one[i] == other[i] by {
                lemma_within_a_part(one, at, i);
            }
            assert(one.subrange(at, end) =~= other.subrange(at, end));
            lemma_alike_parts(one, other, end);
        }
    }
}

/// It makes no difference which of the two separators a path is written with.
pub proof fn law_either_separator_will_do(one: Seq<char>, other: Seq<char>)
    requires
        !is_verbatim(one),
        !is_verbatim(other),
        one.len() == other.len(),
        forall|i: int|
            0 <= i < one.len() ==> #[trigger] one[i] == other[i] || (one[i] == '\\' || one[i]
                == '/') && (other[i] == '\\' || other[i] == '/'),
    ensures
        canonical_of(one) == canonical_of(other),
{
    assert(alike(one, other, 0));
    assert forall|i: int| 0 <= i < one.len() implies is_separator(one[i]) == is_separator(
        other[i],
    ) by {}
    if one.len() >= 2 {
        assert(alike(one, other, 2));
        lemma_alike_ends(one, other, 2);
        lemma_part_end(one, 2);
        let server = part_end(one, 2);
        assert(alike(one, other, server + 1));
        lemma_alike_ends(one, other, server + 1);
    }
    if one.len() >= 4 {
        assert(alike(one, other, 4));
        lemma_alike_ends(one, other, 4);
    }
    assert(prefix_of(one) == prefix_of(other));
    assert(prefix_len(one) == prefix_len(other));
    lemma_prefix(one);
    assert(plain_prefix(one) =~= plain_prefix(other));
    assert(is_rooted(one) == is_rooted(other));
    assert(is_dotted(one) == is_dotted(other));
    assert(alike(one, other, prefix_len(one)));
    lemma_alike_parts(one, other, prefix_len(one));
}

/// The letter of a drive may be written large or small.
pub proof fn law_a_drive_letter_has_no_case(small: char, large: char, rest: Seq<char>)
    requires
        'a' <= small <= 'z',
        large as int == small as int - 32,
    ensures
        canonical_of(seq![small, ':'] + rest) == canonical_of(seq![large, ':'] + rest),
{
    let one = seq![small, ':'] + rest;
    let other = seq![large, ':'] + rest;
    assert(one[0] == small && other[0] == large && one[1] == ':' && other[1] == ':');
    assert forall|i: int| 2 <= i < one.len() implies one[i] == other[i] by {}
    assert('A' <= large <= 'Z');
    assert(prefix_of(one) is Drive && prefix_of(other) is Drive);
    assert(plain_prefix(one) =~= plain_prefix(other));
    assert(alike(one, other, 2));
    lemma_alike_parts(one, other, 2);
}

/// Two files of one folder have two paths.
pub proof fn law_two_names_are_two_paths(drive: char, one: Seq<char>, other: Seq<char>)
    requires
        'a' <= drive <= 'z' || 'A' <= drive <= 'Z',
        one.len() > 0,
        other.len() > 0,
        one[one.len() - 1] != '.',
        other[other.len() - 1] != '.',
        forall|i: int| 0 <= i < one.len() ==> #[trigger] one[i] != '\\' && one[i] != '/',
        forall|i: int| 0 <= i < other.len() ==> #[trigger] other[i] != '\\' && other[i] != '/',
        canonical_of(seq![drive, ':', '\\'] + one) == canonical_of(seq![drive, ':', '\\'] + other),
    ensures
        one == other,
{
    lemma_canonical_name(drive, one);
    lemma_canonical_name(drive, other);
    let head = seq![raised(drive), ':', '\\'];
    let left = head + one.push('\\');
    let right = head + other.push('\\');
    assert(left == right);
    assert(left.len() == one.len() + 4 && right.len() == other.len() + 4);
    assert forall|i: int| 0 <= i < one.len() implies one[i] == other[i] by {
        assert(left[i + 3] == one[i]);
        assert(right[i + 3] == other[i]);
    }
    assert(one =~= other);
}

proof fn lemma_canonical_name(drive: char, name: Seq<char>)
    requires
        'a' <= drive <= 'z' || 'A' <= drive <= 'Z',
        name.len() > 0,
        name[name.len() - 1] != '.',
        forall|i: int| 0 <= i < name.len() ==> #[trigger] name[i] != '\\' && name[i] != '/',
    ensures
        canonical_of(seq![drive, ':', '\\'] + name) == seq![raised(drive), ':', '\\'] + name.push(
            '\\',
        ),
{
    let path = seq![drive, ':', '\\'] + name;
    assert(path[0] == drive && path[1] == ':' && path[2] == '\\');
    assert(prefix_of(path) is Drive);
    assert(plain_prefix(path) =~= seq![raised(drive), ':']);
    assert forall|i: int| 3 <= i < path.len() implies !is_separator(path[i]) by {
        assert(path[i] == name[i - 3]);
    }
    lemma_part_whole(path, 3, path.len() as int);
    lemma_part_end(path, 4);
    let part = path.subrange(3, path.len() as int);
    assert(part =~= name);
    assert(part != seq!['.']) by {
        assert(part[part.len() - 1] == name[name.len() - 1]);
    }
    assert(path[3] == name[0]);
    assert(parts_from(path, path.len() as int) =~= Seq::<char>::empty());
    assert(parts_from(path, 3) =~= name.push('\\'));
    assert(parts_from(path, 2) == parts_from(path, 3));
    assert(canonical_of(path) =~= seq![raised(drive), ':', '\\'] + name.push('\\'));
}

} // verus!
