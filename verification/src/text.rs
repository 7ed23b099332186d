//! Text as sequences of characters: decimal numbers, trimming and comparison.

use vstd::prelude::*;

verus! {

/// `String::push` appends one character to the end of the string.
pub assume_specification[ String::push ](s: &mut String, c: char)
    ensures
        final(s)@ == old(s)@.push(c),
;

/// The characters of `s`, in order.
pub fn chars_of(s: &str) -> (chars: Vec<char>)
    ensures
        chars@ == s@,
{
    let mut chars: Vec<char> = Vec::new();
    for c in it: s.chars()
        invariant
            it.seq() == s@,
            chars@ == s@.take(it.index()),
    {
        chars.push(c);
    }
    chars
}

/// The string made of `chars`, in order.
pub fn string_of(chars: &[char]) -> (s: String)
    ensures
        s@ == chars@,
{
    let mut s = String::new();
    let mut i: usize = 0;
    while i < chars.len()
        invariant
            i <= chars@.len(),
            s@ == chars@.take(i as int),
        decreases chars@.len() - i,
    {
        s.push(chars[i]);
        i += 1;
    }
    s
}

/// The character that stands for one decimal digit.
pub open spec fn digit_char(d: nat) -> char {
    (48 + d) as char
}

/// `n` in decimal, without leading zeros.
pub open spec fn decimal(n: nat) -> Seq<char>
    decreases n,
{
    if n < 10 {
        seq![digit_char(n)]
    } else {
        decimal(n / 10).push(digit_char(n % 10))
    }
}

/// Writes `n` in decimal.
pub fn to_decimal(n: u64) -> (s: String)
    ensures
        s@ == decimal(n as nat),
    decreases n,
{
    let digit: char = (48u8 + (n % 10) as u8) as char;
    let mut s = if n < 10 {
        String::new()
    } else {
        to_decimal(n / 10)
    };
    s.push(digit);
    s
}

/// An ASCII letter in lower case; any other character as it is.
pub open spec fn lower(c: char) -> char {
    if 'A' <= c <= 'Z' {
        (c as u32 + 32) as char
    } else {
        c
    }
}

/// A text with its ASCII letters in lower case.
pub open spec fn lowered(s: Seq<char>) -> Seq<char> {
    s.map_values(|c: char| lower(c))
}

pub fn to_lower(c: char) -> (l: char)
    ensures
        l == lower(c),
{
    if 'A' <= c && c <= 'Z' {
        (c as u8 + 32) as char
    } else {
        c
    }
}

/// Whether two texts are the same but for the case of their ASCII letters.
pub fn same_ignoring_case(one: &[char], other: &str) -> (same: bool)
    ensures
        same == (lowered(one@) == lowered(other@)),
{
    let letters = chars_of(other);
    if one.len() != letters.len() {
        assert(lowered(one@).len() != lowered(other@).len());
        return false;
    }
    let mut i: usize = 0;
    while i < one.len()
        invariant
            i <= one@.len(),
            letters@ == other@,
            one@.len() == letters@.len(),
            forall|k: int| 0 <= k < i ==> lower(one@[k]) == lower(letters@[k]),
        decreases one@.len() - i,
    {
        if to_lower(one[i]) != to_lower(letters[i]) {
            assert(lowered(one@)[i as int] != lowered(other@)[i as int]);
            return false;
        }
        i += 1;
    }
    assert(lowered(one@) =~= lowered(other@));
    true
}

/// Whether `c` is white space, as Unicode counts it.
pub open spec fn is_white(c: char) -> bool {
    let n = c as u32;
    ||| 0x9 <= n <= 0xd
    ||| n == 0x20
    ||| n == 0x85
    ||| n == 0xa0
    ||| n == 0x1680
    ||| 0x2000 <= n <= 0x200a
    ||| n == 0x2028
    ||| n == 0x2029
    ||| n == 0x202f
    ||| n == 0x205f
    ||| n == 0x3000
}

pub fn is_whitespace(c: char) -> (white: bool)
    ensures
        white == is_white(c),
{
    let n: u32 = c as u32;
    (0x9 <= n && n <= 0xd) || n == 0x20 || n == 0x85 || n == 0xa0 || n == 0x1680 || (0x2000 <= n
        && n <= 0x200a) || n == 0x2028 || n == 0x2029 || n == 0x202f || n == 0x205f || n == 0x3000
}

/// What is taken off the ends of a text.
#[derive(Debug, Clone, Copy, PartialEq, Eq, Structural)]
pub enum Trim {
    /// White space.
    Space,
    /// White space and the NULs that fixed-width fields are filled with.
    SpaceOrNul,
    /// Double quotes.
    Quotes,
}

impl Trim {
    /// Whether `c` is taken off.
    pub open spec fn takes(self, c: char) -> bool {
        match self {
            Trim::Space => is_white(c),
            Trim::SpaceOrNul => is_white(c) || c == '\0',
            Trim::Quotes => c == '"',
        }
    }

    fn removes(self, c: char) -> (yes: bool)
        ensures
            yes == self.takes(c),
    {
        match self {
            Trim::Space => is_whitespace(c),
            Trim::SpaceOrNul => is_whitespace(c) || c == '\0',
            Trim::Quotes => c == '"',
        }
    }
}

/// A text without what is taken off its front.
pub open spec fn trimmed_front(s: Seq<char>, trim: Trim) -> Seq<char>
    decreases s.len(),
{
    if s.len() > 0 && trim.takes(s[0]) {
        trimmed_front(s.skip(1), trim)
    } else {
        s
    }
}

/// A text without what is taken off its back.
pub open spec fn trimmed_back(s: Seq<char>, trim: Trim) -> Seq<char>
    decreases s.len(),
{
    if s.len() > 0 && trim.takes(s.last()) {
        trimmed_back(s.drop_last(), trim)
    } else {
        s
    }
}

/// A text without what is taken off its ends.
pub open spec fn trimmed(s: Seq<char>, trim: Trim) -> Seq<char> {
    trimmed_back(trimmed_front(s, trim), trim)
}

/// `chars` without what is taken off its ends.
pub fn trim_chars(chars: &[char], trim: Trim) -> (kept: &[char])
    ensures
        kept@ == trimmed(chars@, trim),
{
    let mut start: usize = 0;
    assert(chars@.skip(0) =~= chars@);
    while start < chars.len() && trim.removes(chars[start])
        invariant
            start <= chars@.len(),
            trimmed_front(chars@, trim) == trimmed_front(chars@.skip(start as int), trim),
        decreases chars@.len() - start,
    {
        assert(chars@.skip(start as int).skip(1) =~= chars@.skip(start + 1));
        start += 1;
    }
    let mut end: usize = chars.len();
    assert(chars@.subrange(start as int, end as int) =~= chars@.skip(start as int));
    while end > start && trim.removes(chars[end - 1])
        invariant
            start <= end <= chars@.len(),
            trimmed(chars@, trim) == trimmed_back(
                chars@.subrange(start as int, end as int),
                trim,
            ),
        decreases end - start,
    {
        assert(chars@.subrange(start as int, end as int).drop_last() =~= chars@.subrange(
            start as int,
            end - 1,
        ));
        end -= 1;
    }
    vstd::slice::slice_subrange(chars, start, end)
}

/// `s` without what is taken off its ends.
pub fn trim_text(s: &str, trim: Trim) -> (kept: String)
    ensures
        kept@ == trimmed(s@, trim),
{
    let chars = chars_of(s);
    string_of(trim_chars(chars.as_slice(), trim))
}

/// The number that a character stands for, if it is a decimal digit.
pub open spec fn digit_value(c: char) -> Option<nat> {
    if '0' <= c <= '9' {
        Some((c as int - 48) as nat)
    } else {
        None
    }
}

/// The number that decimal digits stand for, if they are nothing else.
pub open spec fn digits_value(s: Seq<char>) -> Option<nat>
    decreases s.len(),
{
    if s.len() == 0 {
        Some(0)
    } else {
        match (digits_value(s.drop_last()), digit_value(s.last())) {
            (Some(high), Some(low)) => Some(10 * high + low),
            _ => None,
        }
    }
}

/// The number that a text spells: decimal digits, at least one, with or without a plus
/// sign in front, up to a limit.
pub open spec fn number_in(s: Seq<char>, limit: nat) -> Option<nat> {
    let digits = if s.len() > 0 && s[0] == '+' {
        s.skip(1)
    } else {
        s
    };
    match digits_value(digits) {
        Some(value) => if digits.len() > 0 && value <= limit {
            Some(value)
        } else {
            None
        },
        None => None,
    }
}

/// Reading on keeps a number at least as large, and what is no digit stays none.
proof fn lemma_digits_grow(s: Seq<char>, n: int)
    requires
        0 <= n <= s.len(),
    ensures
        digits_value(s) is Some ==> digits_value(s.take(n)) is Some && digits_value(s.take(n))->0
            <= digits_value(s)->0,
    decreases s.len() - n,
{
    if n < s.len() {
        lemma_digits_grow(s, n + 1);
        assert(s.take(n + 1).drop_last() =~= s.take(n));
    } else {
        assert(s.take(n) =~= s);
    }
}

/// The number that a text spells, up to a limit.
pub fn parse_number(s: &[char], limit: u64) -> (number: Option<u64>)
    ensures
        number is Some == (number_in(s@, limit as nat) is Some),
        number matches Some(number) ==> number_in(s@, limit as nat) == Some(number as nat),
{
    let start: usize = if s.len() > 0 && s[0] == '+' {
        1
    } else {
        0
    };
    if s.len() == start {
        return None;
    }
    let ghost digits = s@.skip(start as int);
    assert(start == 0 ==> digits =~= s@);
    let mut value: u128 = 0;
    let mut i: usize = start;
    while i < s.len()
        invariant
            start <= 1,
            start <= i <= s@.len(),
            start < s@.len(),
            digits == s@.skip(start as int),
            number_in(s@, limit as nat) == (match digits_value(digits) {
                Some(value) => if digits.len() > 0 && value <= limit {
                    Some(value)
                } else {
                    None
                },
                None => None,
            }),
            digits_value(digits.take(i - start)) == Some(value as nat),
            value <= limit,
        decreases s@.len() - i,
    {
        let c = s[i];
        proof {
            assert(digits.take(i + 1 - start).drop_last() =~= digits.take(i - start));
            assert(digits.take(i + 1 - start).last() == c);
            lemma_digits_grow(digits, i + 1 - start);
        }
        if c < '0' || c > '9' {
            return None;
        }
        value = value * 10 + (c as u32 - 48) as u128;
        if value > limit as u128 {
            return None;
        }
        i += 1;
    }
    assert(digits.take(i - start) =~= digits);
    Some(value as u64)
}

/// Where the first `c` stands, from `at` on, or the end.
pub open spec fn first_at(s: Seq<char>, c: char, at: int) -> int
    decreases s.len() - at,
{
    if at >= s.len() || s[at] == c {
        at
    } else {
        first_at(s, c, at + 1)
    }
}

/// Finds the first `c` from `at` on.
pub fn find_first(s: &[char], c: char, at: usize) -> (found: usize)
    requires
        at <= s@.len(),
    ensures
        found == first_at(s@, c, at as int),
        at <= found <= s@.len(),
{
    let mut found: usize = at;
    while found < s.len() && s[found] != c
        invariant
            at <= found <= s@.len(),
            first_at(s@, c, at as int) == first_at(s@, c, found as int),
        decreases s@.len() - found,
    {
        found += 1;
    }
    found
}

/// The end of a stretch without `c` is within the text.
pub proof fn lemma_first_at(s: Seq<char>, c: char, at: int)
    requires
        0 <= at <= s.len(),
    ensures
        at <= first_at(s, c, at) <= s.len(),
        first_at(s, c, at) < s.len() ==> s[first_at(s, c, at)] == c,
        forall|i: int| at <= i < first_at(s, c, at) ==> s[i] != c,
    decreases s.len() - at,
{
    if at < s.len() && s[at] != c {
        lemma_first_at(s, c, at + 1);
    }
}

/// What stands before and after the first `c`, if there is one.
pub open spec fn split_once(s: Seq<char>, c: char) -> Option<(Seq<char>, Seq<char>)> {
    let at = first_at(s, c, 0);
    if at < s.len() {
        Some((s.take(at), s.skip(at + 1)))
    } else {
        None
    }
}

/// Whether a text is the same as another.
pub fn same_text(one: &[char], other: &str) -> (same: bool)
    ensures
        same == (one@ == other@),
{
    let letters = chars_of(other);
    if one.len() != letters.len() {
        return false;
    }
    let mut i: usize = 0;
    while i < one.len()
        invariant
            i <= one@.len(),
            letters@ == other@,
            one@.len() == letters@.len(),
            forall|k: int| 0 <= k < i ==> one@[k] == letters@[k],
        decreases one@.len() - i,
    {
        if one[i] != letters[i] {
            return false;
        }
        i += 1;
    }
    assert(one@ =~= other@);
    true
}

/// A number spelled out in decimal reads back as itself.
pub proof fn law_decimals_read_back(n: nat, limit: nat)
    requires
        n <= limit,
    ensures
        number_in(decimal(n), limit) == Some(n),
{
    lemma_decimal_reads(n);
    let s = decimal(n);
    assert(s[0] != '+');
}

proof fn lemma_decimal_reads(n: nat)
    ensures
        decimal(n).len() > 0,
        '0' <= decimal(n)[0] <= '9',
        digits_value(decimal(n)) == Some(n),
    decreases n,
{
    if n < 10 {
        assert(decimal(n).drop_last() =~= Seq::<char>::empty());
        assert(digits_value(Seq::<char>::empty()) == Some(0nat));
    } else {
        lemma_decimal_reads(n / 10);
        assert(decimal(n).drop_last() =~= decimal(n / 10));
    }
}

/// Trimming takes everything off the ends that is to be taken, and nothing else: what is left
/// starts and ends with something that stays.
pub proof fn law_trimming_takes_only_the_ends(
    front: Seq<char>,
    core: Seq<char>,
    back: Seq<char>,
    trim: Trim,
)
    requires
        forall|i: int| 0 <= i < front.len() ==> #[trigger] trim.takes(front[i]),
        forall|i: int| 0 <= i < back.len() ==> #[trigger] trim.takes(back[i]),
        core.len() > 0 ==> !trim.takes(core[0]) && !trim.takes(core[core.len() - 1]),
    ensures
        trimmed(front + core + back, trim) == core,
    decreases front.len() + back.len(),
{
    let s = front + core + back;
    if front.len() > 0 {
        assert(s[0] == front[0]);
        assert(trim.takes(front[0]));
        assert(s.skip(1) =~= front.skip(1) + core + back);
        law_trimming_takes_only_the_ends(front.skip(1), core, back, trim);
    } else if core.len() > 0 {
        assert(s[0] == core[0]);
        lemma_trimmed_back(core, back, trim);
        assert(s =~= core + back);
    } else {
        assert(s =~= back);
        lemma_all_trimmed(back, trim);
        assert(core =~= Seq::<char>::empty());
    }
}

proof fn lemma_trimmed_back(core: Seq<char>, back: Seq<char>, trim: Trim)
    requires
        forall|i: int| 0 <= i < back.len() ==> #[trigger] trim.takes(back[i]),
        core.len() > 0,
        !trim.takes(core[core.len() - 1]),
    ensures
        trimmed_back(core + back, trim) == core,
    decreases back.len(),
{
    if back.len() > 0 {
        assert((core + back).last() == back[back.len() - 1]);
        assert(trim.takes(back[back.len() - 1]));
        assert((core + back).drop_last() =~= core + back.drop_last());
        lemma_trimmed_back(core, back.drop_last(), trim);
    } else {
        assert(core + back =~= core);
    }
}

proof fn lemma_all_trimmed(s: Seq<char>, trim: Trim)
    requires
        forall|i: int| 0 <= i < s.len() ==> #[trigger] trim.takes(s[i]),
    ensures
        trimmed(s, trim) == Seq::<char>::empty(),
    decreases s.len(),
{
    if s.len() > 0 {
        assert(trim.takes(s[0]));
        lemma_all_trimmed(s.skip(1), trim);
    } else {
        assert(s =~= Seq::<char>::empty());
    }
}

/// What is taken off: blanks and line ends, for padded fields zeros too, and quotes alone where
/// those are meant. What can be seen stays.
pub proof fn law_what_can_be_seen_is_not_trimmed(c: char)
    ensures
        ({
            let blank = c == ' ' || c == '\t' || c == '\n' || c == '\r';
            &&& blank ==> Trim::Space.takes(c) && Trim::SpaceOrNul.takes(c)
            &&& Trim::SpaceOrNul.takes('\0') && !Trim::Space.takes('\0')
            &&& Trim::Quotes.takes(c) == (c == '"')
            &&& '!' <= c <= '~' ==> !Trim::Space.takes(c) && !Trim::SpaceOrNul.takes(c)
        }),
{
}

/// Numbers are written in tens, from the left, without zeros in front: nothing but digits, and
/// one more digit makes ten times the number and that digit.
pub proof fn law_decimals_are_written_in_tens(n: nat, digit: nat)
    requires
        digit < 10,
    ensures
        decimal(digit) == seq![(48 + digit) as char],
        n >= 1 ==> decimal((10 * n + digit) as nat) == decimal(n) + seq![(48 + digit) as char],
        n >= 1 ==> decimal(n)[0] != '0',
        forall|i: int| 0 <= i < decimal(n).len() ==> '0' <= #[trigger] decimal(n)[i] <= '9',
    decreases n,
{
    if n >= 1 {
        assert(((10 * n + digit) as nat) / 10 == n && ((10 * n + digit) as nat) % 10 == digit);
        assert(decimal((10 * n + digit) as nat) =~= decimal(n) + seq![(48 + digit) as char]);
    }
    if n >= 10 {
        law_decimals_are_written_in_tens(n / 10, digit);
        assert forall|i: int| 0 <= i < decimal(n).len() implies '0' <= #[trigger] decimal(n)[i]
            <= '9' by {
            if i < decimal(n / 10).len() {
                assert(decimal(n)[i] == decimal(n / 10)[i]);
            }
        }
        lemma_decimal_reads(n / 10);
        assert(decimal(n)[0] == decimal(n / 10)[0]);
    }
}

/// A text spells a number if it is digits, at least one, perhaps behind a plus sign, and no more
/// than the limit. Anything else spells none.
pub proof fn law_only_digits_spell_a_number(n: nat, limit: nat, s: Seq<char>, i: int)
    ensures
        number_in(decimal(n), limit) == (if n <= limit { Some(n) } else { None }),
        number_in(seq!['+'] + decimal(n), limit) == (if n <= limit { Some(n) } else { None }),
        s.len() == 0 ==> number_in(s, limit) is None,
        0 <= i < s.len() && !('0' <= s[i] <= '9') && !(i == 0 && s[i] == '+') ==> number_in(
            s,
            limit,
        ) is None,
        number_in(s, limit) matches Some(value) ==> value <= limit,
{
    lemma_decimal_reads(n);
    assert((seq!['+'] + decimal(n)).skip(1) =~= decimal(n));
    if 0 <= i < s.len() && !('0' <= s[i] <= '9') && !(i == 0 && s[i] == '+') {
        let digits = if s[0] == '+' {
            s.skip(1)
        } else {
            s
        };
        let at = if s[0] == '+' {
            i - 1
        } else {
            i
        };
        assert(digits[at] == s[i]);
        lemma_digits_grow(digits, at + 1);
        assert(digits.take(at + 1).last() == s[i]);
    }
}

/// A text is split where the character first stands, which is in neither half.
pub proof fn law_a_text_splits_at_the_first_mark(before: Seq<char>, after: Seq<char>, c: char)
    requires
        !before.contains(c),
    ensures
        split_once(before + seq![c] + after, c) == Some((before, after)),
        split_once(before, c) is None,
{
    let s = before + seq![c] + after;
    lemma_first_at(s, c, 0);
    lemma_first_at(before, c, 0);
    let at = first_at(s, c, 0);
    if at < before.len() {
        assert(before[at] == s[at]);
    }
    assert(s[before.len() as int] == c);
    assert(at == before.len());
    assert(s.take(at) =~= before);
    assert(s.skip(at + 1) =~= after);
}

/// Case is a matter of the 26 letters: each upper one has its lower one, and nothing else moves.
pub proof fn law_only_letters_have_case(c: char)
    ensures
        'A' <= c <= 'Z' ==> lower(c) as int == c as int + 32 && 'a' <= lower(c) <= 'z',
        !('A' <= c <= 'Z') ==> lower(c) == c,
        lower(lower(c)) == lower(c),
{
}

/// The blanks are those of Unicode: the controls from the tab to the carriage return, the space
/// and the next line, the spaces of print and the two separators.
pub proof fn law_blanks_are_those_of_unicode(c: char)
    ensures
        is_white(c) <==> '\t' <= c <= '\r' || c == ' ' || c == '\u{85}' || c == '\u{a0}' || c
            == '\u{1680}' || '\u{2000}' <= c <= '\u{200a}' || c == '\u{2028}' || c == '\u{2029}'
            || c == '\u{202f}' || c == '\u{205f}' || c == '\u{3000}',
{
}

} // verus!
