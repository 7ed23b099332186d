//! Settings that outlive a session, as a small text of `key = value` lines.
//!
//! A line that makes no sense keeps its default and takes nothing else with it.

use vstd::prelude::*;
use crate::order::Order;
use crate::order::SortKey;
use crate::path;
use crate::text;
use crate::text::Trim;
use crate::text::chars_of;
use crate::text::find_first;
use crate::text::parse_number;
use crate::text::same_text;
use crate::text::to_decimal;
use crate::text::trim_chars;

verus! {

/// The settings, with one default each.
#[derive(Debug, Clone, Copy, PartialEq, Eq, Structural)]
pub struct Settings {
    /// How long a slideshow holds each image, in seconds.
    pub slideshow_secs: u32,
    /// What a newly opened folder is sorted by.
    pub order: Order,
}

pub open spec fn defaults() -> Settings {
    Settings { slideshow_secs: 4, order: Order { key: SortKey::Name, descending: false } }
}

impl Default for Settings {
    fn default() -> (settings: Self)
        ensures
            settings == defaults(),
    {
        Settings { slideshow_secs: 4, order: Order::default() }
    }
}

/// How a key is spelled in the file.
pub open spec fn key_name(key: SortKey) -> Seq<char> {
    match key {
        SortKey::Name => "name"@,
        SortKey::Modified => "date"@,
        SortKey::Size => "size"@,
    }
}

/// How a direction is spelled in the file.
pub open spec fn direction_name(descending: bool) -> Seq<char> {
    if descending {
        "desc"@
    } else {
        "asc"@
    }
}

/// How an order is spelled in the file: the two choices, with a dash between.
pub open spec fn order_name(order: Order) -> Seq<char> {
    key_name(order.key) + "-"@ + direction_name(order.descending)
}

pub fn order_key(order: Order) -> (name: String)
    ensures
        name@ == order_name(order),
{
    let mut name = match order.key {
        SortKey::Name => "name".to_owned(),
        SortKey::Modified => "date".to_owned(),
        SortKey::Size => "size".to_owned(),
    };
    name.append("-");
    name.append(
        if order.descending {
            "desc"
        } else {
            "asc"
        },
    );
    name
}

pub open spec fn key_named(name: Seq<char>) -> Option<SortKey> {
    if name == "name"@ {
        Some(SortKey::Name)
    } else if name == "date"@ {
        Some(SortKey::Modified)
    } else if name == "size"@ {
        Some(SortKey::Size)
    } else {
        None
    }
}

pub open spec fn direction_named(name: Seq<char>) -> Option<bool> {
    if name == "asc"@ {
        Some(false)
    } else if name == "desc"@ {
        Some(true)
    } else {
        None
    }
}

/// The order that a text spells.
pub open spec fn order_named(value: Seq<char>) -> Option<Order> {
    match text::split_once(value, '-') {
        None => None,
        Some((key, direction)) => match (key_named(key), direction_named(direction)) {
            (Some(key), Some(descending)) => Some(Order { key, descending }),
            _ => None,
        },
    }
}

fn read_order(value: &[char]) -> (order: Option<Order>)
    ensures
        order == order_named(value@),
{
    let dash: usize = find_first(value, '-', 0);
    if dash == value.len() {
        return None;
    }
    let key = vstd::slice::slice_subrange(value, 0, dash);
    let count: usize = value.len();
    let direction = vstd::slice::slice_subrange(value, dash + 1, count);
    assert(key@ =~= value@.take(dash as int));
    assert(direction@ =~= value@.skip(dash + 1));
    let key = if same_text(key, "name") {
        SortKey::Name
    } else if same_text(key, "date") {
        SortKey::Modified
    } else if same_text(key, "size") {
        SortKey::Size
    } else {
        return None;
    };
    if same_text(direction, "asc") {
        Some(Order { key, descending: false })
    } else if same_text(direction, "desc") {
        Some(Order { key, descending: true })
    } else {
        None
    }
}

pub fn parse_order(value: &str) -> (order: Option<Order>)
    ensures
        order == order_named(value@),
{
    read_order(chars_of(value).as_slice())
}

/// A slideshow length within reason.
pub open spec fn sensible(secs: nat) -> u32 {
    if secs < 1 {
        1
    } else if secs > 120 {
        120
    } else {
        secs as u32
    }
}

/// The settings after one line of the file.
pub open spec fn after_line(settings: Settings, line: Seq<char>) -> Settings {
    let line = text::trimmed(line, Trim::Space);
    if line.len() == 0 || line[0] == '#' {
        settings
    } else {
        match text::split_once(line, '=') {
            None => settings,
            Some((key, value)) => after_entry(
                settings,
                text::trimmed(key, Trim::Space),
                text::trimmed(value, Trim::Space),
            ),
        }
    }
}

/// The settings after one key and its value.
pub open spec fn after_entry(settings: Settings, key: Seq<char>, value: Seq<char>) -> Settings {
    if key == "slideshow_secs"@ {
        match text::number_in(value, u32::MAX as nat) {
            Some(secs) => Settings { slideshow_secs: sensible(secs), ..settings },
            None => settings,
        }
    } else if key == "order"@ {
        match order_named(value) {
            Some(order) => Settings { order, ..settings },
            None => settings,
        }
    } else {
        settings
    }
}

/// The settings after all lines of a text.
pub open spec fn after_text(settings: Settings, text: Seq<char>) -> Settings
    decreases text.len(),
{
    if text.len() == 0 {
        settings
    } else {
        let end = text::first_at(text, '\n', 0);
        proof {
            text::lemma_first_at(text, '\n', 0);
        }
        let next = after_line(settings, text.take(end));
        if end < text.len() {
            after_text(next, text.skip(end + 1))
        } else {
            next
        }
    }
}

fn read_line(settings: Settings, line: &[char]) -> (after: Settings)
    ensures
        after == after_line(settings, line@),
{
    let line = trim_chars(line, Trim::Space);
    let count: usize = line.len();
    if count == 0 || line[0] == '#' {
        return settings;
    }
    let equals: usize = find_first(line, '=', 0);
    if equals == count {
        return settings;
    }
    let key = vstd::slice::slice_subrange(line, 0, equals);
    let value = vstd::slice::slice_subrange(line, equals + 1, count);
    assert(key@ =~= line@.take(equals as int));
    assert(value@ =~= line@.skip(equals + 1));
    let key = trim_chars(key, Trim::Space);
    let value = trim_chars(value, Trim::Space);
    let mut after = settings;
    if same_text(key, "slideshow_secs") {
        if let Some(secs) = parse_number(value, u32::MAX as u64) {
            after.slideshow_secs = if secs < 1 {
                1
            } else if secs > 120 {
                120
            } else {
                secs as u32
            };
        }
    } else if same_text(key, "order") {
        if let Some(order) = read_order(value) {
            after.order = order;
        }
    }
    after
}

/// Reads the settings out of the text of a file.
pub fn parse(text: &str) -> (settings: Settings)
    ensures
        settings == after_text(defaults(), text@),
{
    let chars = chars_of(text);
    let count: usize = chars.len();
    let mut settings = Settings::default();
    let mut at: usize = 0;
    assert(chars@.skip(0) =~= chars@);
    while at < count
        invariant
            at <= count == chars@.len(),
            after_text(defaults(), text@) == after_text(settings, chars@.skip(at as int)),
        decreases count - at,
    {
        let end: usize = find_first(chars.as_slice(), '\n', at);
        let line = vstd::slice::slice_subrange(chars.as_slice(), at, end);
        proof {
            let rest = chars@.skip(at as int);
            lemma_first_shifted(chars@, '\n', at as int);
            assert(rest.take(end - at) =~= line@);
            if end < count {
                assert(rest.skip(end - at + 1) =~= chars@.skip(end + 1));
            } else {
                assert(chars@.skip(count as int) =~= Seq::<char>::empty());
            }
        }
        settings = read_line(settings, line);
        at = if end < count {
            end + 1
        } else {
            end
        };
    }
    settings
}

/// Looking from a place on is looking from the start of what is left.
proof fn lemma_first_shifted(s: Seq<char>, c: char, at: int)
    requires
        0 <= at <= s.len(),
    ensures
        text::first_at(s, c, at) == at + text::first_at(s.skip(at), c, 0),
{
    lemma_first_from(s, c, at, at);
}

proof fn lemma_first_from(s: Seq<char>, c: char, at: int, from: int)
    requires
        0 <= at <= from <= s.len(),
    ensures
        text::first_at(s, c, from) == at + text::first_at(s.skip(at), c, from - at),
    decreases s.len() - from,
{
    if from < s.len() && s[from] != c {
        lemma_first_from(s, c, at, from + 1);
    }
}

/// The text of the settings file.
pub open spec fn rendered(settings: Settings) -> Seq<char> {
    heading() + "\n"@ + "slideshow_secs = "@ + text::decimal(settings.slideshow_secs as nat) + "\n"@
        + "order = "@ + order_name(settings.order) + "\n"@
}

pub open spec fn heading() -> Seq<char> {
    "# imaginer settings \u{2014} hand-edited at your own risk"@
}

pub fn render(settings: &Settings) -> (text: String)
    ensures
        text@ == rendered(*settings),
{
    let mut text = "# imaginer settings \u{2014} hand-edited at your own risk".to_owned();
    text.append("\n");
    text.append("slideshow_secs = ");
    text.append(to_decimal(settings.slideshow_secs as u64).as_str());
    text.append("\n");
    text.append("order = ");
    text.append(order_key(settings.order).as_str());
    text.append("\n");
    text
}

/// Where the settings file lives under the folder that a machine keeps such files in.
pub fn default_path(appdata: &str) -> (path: String)
    ensures
        path@ == path::joined(path::joined(appdata@, "imaginer"@), "settings.txt"@),
{
    path::join(path::join(appdata, "imaginer").as_str(), "settings.txt")
}

/// The settings that a file holds, or the defaults if there is no file to read.
pub fn load(text: Option<&str>) -> (settings: Settings)
    ensures
        settings == (match text {
            Some(text) => after_text(defaults(), text@),
            None => defaults(),
        }),
{
    match text {
        Some(text) => parse(text),
        None => Settings::default(),
    }
}

impl Settings {
    /// The settings that a file holds, or the defaults if there is no file to read.
    pub fn load(text: Option<&str>) -> (settings: Self)
        ensures
            settings == (match text {
                Some(text) => after_text(defaults(), text@),
                None => defaults(),
            }),
    {
        load(text)
    }

    /// The text to write to the file.
    pub fn save(&self) -> (text: String)
        ensures
            text@ == rendered(*self),
    {
        render(self)
    }
}

/// An order reads back as it was spelled.
pub proof fn law_every_order_reads_back(order: Order)
    ensures
        order_named(order_name(order)) == Some(order),
{
    reveal_strlit("name");
    reveal_strlit("date");
    reveal_strlit("size");
    reveal_strlit("-");
    reveal_strlit("asc");
    reveal_strlit("desc");
    let name = order_name(order);
    let key = key_name(order.key);
    let direction = direction_name(order.descending);
    assert(name[0] != '-' && name[1] != '-' && name[2] != '-' && name[3] != '-' && name[4] == '-');
    reveal_with_fuel(text::first_at, 5);
    assert(text::first_at(name, '-', 0) == 4);
    assert(name.take(4) =~= key);
    assert(name.skip(5) =~= direction);
    assert("name"@[0] != "date"@[0] && "name"@[0] != "size"@[0] && "date"@[0] != "size"@[0]);
    assert("asc"@.len() != "desc"@.len());
}

/// Nothing to take off the ends leaves a text as it is.
proof fn lemma_untrimmed(s: Seq<char>)
    requires
        s.len() > 0,
        !text::is_white(s[0]),
        !text::is_white(s.last()),
    ensures
        text::trimmed(s, Trim::Space) == s,
{
}

/// One line ahead of the rest is read first.
proof fn lemma_line_first(settings: Settings, line: Seq<char>, rest: Seq<char>)
    requires
        forall|i: int| 0 <= i < line.len() ==> line[i] != '\n',
    ensures
        after_text(settings, line + "\n"@ + rest) == after_text(after_line(settings, line), rest),
{
    reveal_strlit("\n");
    let whole = line + "\n"@ + rest;
    text::lemma_first_at(whole, '\n', 0);
    let end = text::first_at(whole, '\n', 0);
    assert(whole[line.len() as int] == '\n');
    assert(end == line.len()) by {
        if end < line.len() {
            assert(whole[end] == line[end]);
        }
    }
    assert(whole.take(end) =~= line);
    assert(whole.skip(end + 1) =~= rest);
}

/// A line `key = value`, where neither has anything to trim, sets the value of the key.
proof fn lemma_entry_line(settings: Settings, key: Seq<char>, value: Seq<char>)
    requires
        key.len() > 0,
        value.len() > 0,
        key[0] != '#',
        !text::is_white(key[0]),
        !text::is_white(key.last()),
        !text::is_white(value[0]),
        !text::is_white(value.last()),
        forall|i: int| 0 <= i < key.len() ==> key[i] != '=',
    ensures
        after_line(settings, key + " = "@ + value) == after_entry(settings, key, value),
{
    reveal_strlit(" = ");
    let line = key + " = "@ + value;
    lemma_untrimmed(line);
    text::lemma_first_at(line, '=', 0);
    let at = text::first_at(line, '=', 0);
    assert(line[key.len() as int + 1] == '=');
    assert(at == key.len() + 1) by {
        if at < key.len() {
            assert(line[at] == key[at]);
        } else if at == key.len() {
            assert(line[at] == ' ');
        }
    }
    let left = line.take(at);
    let right = line.skip(at + 1);
    assert(left =~= key.push(' '));
    assert(right =~= seq![' '] + value);
    assert(text::trimmed(left, Trim::Space) == key) by {
        assert(text::trimmed_front(left, Trim::Space) == left);
        assert(left.drop_last() =~= key);
        reveal_with_fuel(text::trimmed_back, 2);
    }
    assert(text::trimmed(right, Trim::Space) == value) by {
        assert(right.skip(1) =~= value);
        reveal_with_fuel(text::trimmed_front, 2);
    }
}

/// Decimal digits are digits.
proof fn lemma_decimal_digits(n: nat)
    ensures
        text::decimal(n).len() > 0,
        forall|i: int|
            0 <= i < text::decimal(n).len() ==> '0' <= #[trigger] text::decimal(n)[i] <= '9',
    decreases n,
{
    if n >= 10 {
        lemma_decimal_digits(n / 10);
        let front = text::decimal(n / 10);
        assert forall|i: int| 0 <= i < text::decimal(n).len() implies '0'
            <= #[trigger] text::decimal(n)[i] <= '9' by {
            if i < front.len() {
                assert(text::decimal(n)[i] == front[i]);
            }
        }
    }
}

/// Settings that were written down read back as they were, but for a slideshow length that
/// is out of reason.
pub proof fn law_settings_read_back(settings: Settings)
    ensures
        after_text(defaults(), rendered(settings)) == (Settings {
            slideshow_secs: sensible(settings.slideshow_secs as nat),
            order: settings.order,
        }),
{
    let secs = text::decimal(settings.slideshow_secs as nat);
    let order = order_name(settings.order);
    reveal_strlit("\n");
    reveal_strlit("# imaginer settings \u{2014} hand-edited at your own risk");
    reveal_strlit("slideshow_secs");
    reveal_strlit("slideshow_secs = ");
    reveal_strlit("order");
    reveal_strlit("order = ");
    reveal_strlit(" = ");
    reveal_strlit("name");
    reveal_strlit("date");
    reveal_strlit("size");
    reveal_strlit("-");
    reveal_strlit("asc");
    reveal_strlit("desc");
    lemma_decimal_digits(settings.slideshow_secs as nat);
    let line1 = heading();
    let line2 = "slideshow_secs"@ + " = "@ + secs;
    let line3 = "order"@ + " = "@ + order;
    let end = Seq::<char>::empty();
    assert("slideshow_secs = "@ =~= "slideshow_secs"@ + " = "@);
    assert("order = "@ =~= "order"@ + " = "@);
    assert(rendered(settings) =~= line1 + "\n"@ + (line2 + "\n"@ + (line3 + "\n"@ + end)));
    lemma_untrimmed(line1);
    assert(after_line(defaults(), line1) == defaults());
    lemma_line_first(defaults(), line1, line2 + "\n"@ + (line3 + "\n"@ + end));
    lemma_entry_line(defaults(), "slideshow_secs"@, secs);
    text::law_decimals_read_back(settings.slideshow_secs as nat, u32::MAX as nat);
    let timed = Settings {
        slideshow_secs: sensible(settings.slideshow_secs as nat),
        order: defaults().order,
    };
    assert(after_line(defaults(), line2) == timed);
    lemma_line_first(defaults(), line2, line3 + "\n"@ + end);
    lemma_entry_line(timed, "order"@, order);
    law_every_order_reads_back(settings.order);
    assert("order"@ != "slideshow_secs"@);
    lemma_line_first(timed, line3, end);
}

/// One line cannot spoil another: a line that sets nothing leaves all that the others set.
pub proof fn law_a_bad_line_spoils_nothing(settings: Settings, line: Seq<char>, rest: Seq<char>)
    requires
        forall|i: int| 0 <= i < line.len() ==> line[i] != '\n',
        after_line(settings, line) == settings,
    ensures
        after_text(settings, line + "\n"@ + rest) == after_text(settings, rest),
{
    lemma_line_first(settings, line, rest);
}

/// What has a first character that is not trimmed keeps it.
proof fn lemma_front_stays(s: Seq<char>)
    requires
        s.len() > 0,
        !text::is_white(s[0]),
    ensures
        text::trimmed_back(s, Trim::Space).len() > 0,
        text::trimmed_back(s, Trim::Space)[0] == s[0],
    decreases s.len(),
{
    if text::is_white(s.last()) {
        assert(s.len() > 1);
        lemma_front_stays(s.drop_last());
    }
}

/// Trimming brings in no new characters.
proof fn lemma_trimming_adds_nothing(s: Seq<char>, c: char)
    requires
        !s.contains(c),
    ensures
        !text::trimmed_front(s, Trim::Space).contains(c),
        !text::trimmed_back(s, Trim::Space).contains(c),
    decreases s.len(),
{
    if s.len() > 0 {
        assert forall|i: int| 0 <= i < s.len() - 1 implies s.skip(1)[i] != c && s.drop_last()[i]
            != c by {
            assert(s.contains(s[i]) && s.contains(s[i + 1]));
        }
        lemma_trimming_adds_nothing(s.skip(1), c);
        lemma_trimming_adds_nothing(s.drop_last(), c);
    }
}

/// A line sets what it names, to what it says, and nothing else: the length of a slideshow, in
/// seconds, between one and two minutes' worth, or one of six orders.
pub proof fn law_a_line_sets_what_it_names(settings: Settings, secs: nat)
    requires
        secs <= u32::MAX,
    ensures
        after_line(settings, "slideshow_secs = "@ + text::decimal(secs)) == (Settings {
            slideshow_secs: if secs == 0 {
                1
            } else if secs > 120 {
                120
            } else {
                secs as u32
            },
            order: settings.order,
        }),
        after_line(settings, "order = name-asc"@) == (Settings {
            slideshow_secs: settings.slideshow_secs,
            order: Order { key: SortKey::Name, descending: false },
        }),
        after_line(settings, "order = name-desc"@) == (Settings {
            slideshow_secs: settings.slideshow_secs,
            order: Order { key: SortKey::Name, descending: true },
        }),
        after_line(settings, "order = date-asc"@) == (Settings {
            slideshow_secs: settings.slideshow_secs,
            order: Order { key: SortKey::Modified, descending: false },
        }),
        after_line(settings, "order = date-desc"@) == (Settings {
            slideshow_secs: settings.slideshow_secs,
            order: Order { key: SortKey::Modified, descending: true },
        }),
        after_line(settings, "order = size-asc"@) == (Settings {
            slideshow_secs: settings.slideshow_secs,
            order: Order { key: SortKey::Size, descending: false },
        }),
        after_line(settings, "order = size-desc"@) == (Settings {
            slideshow_secs: settings.slideshow_secs,
            order: Order { key: SortKey::Size, descending: true },
        }),
{
    reveal_strlit("slideshow_secs");
    reveal_strlit("slideshow_secs = ");
    reveal_strlit(" = ");
    reveal_strlit("order");
    lemma_decimal_digits(secs);
    let digits = text::decimal(secs);
    assert('0' <= digits[0] <= '9' && '0' <= digits[digits.len() - 1] <= '9');
    assert("slideshow_secs = "@ + digits =~= "slideshow_secs"@ + " = "@ + digits);
    lemma_entry_line(settings, "slideshow_secs"@, digits);
    text::law_decimals_read_back(secs, u32::MAX as nat);
    assert("order"@ != "slideshow_secs"@) by {
        assert("order"@.len() != "slideshow_secs"@.len());
    }
    lemma_order_line(settings, Order { key: SortKey::Name, descending: false });
    lemma_order_line(settings, Order { key: SortKey::Name, descending: true });
    lemma_order_line(settings, Order { key: SortKey::Modified, descending: false });
    lemma_order_line(settings, Order { key: SortKey::Modified, descending: true });
    lemma_order_line(settings, Order { key: SortKey::Size, descending: false });
    lemma_order_line(settings, Order { key: SortKey::Size, descending: true });
    reveal_strlit("name");
    reveal_strlit("date");
    reveal_strlit("size");
    reveal_strlit("-");
    reveal_strlit("asc");
    reveal_strlit("desc");
    reveal_strlit("order = name-asc");
    reveal_strlit("order = name-desc");
    reveal_strlit("order = date-asc");
    reveal_strlit("order = date-desc");
    reveal_strlit("order = size-asc");
    reveal_strlit("order = size-desc");
    assert("order = name-asc"@ =~= "order"@ + " = "@ + ("name"@ + "-"@ + "asc"@));
    assert("order = name-desc"@ =~= "order"@ + " = "@ + ("name"@ + "-"@ + "desc"@));
    assert("order = date-asc"@ =~= "order"@ + " = "@ + ("date"@ + "-"@ + "asc"@));
    assert("order = date-desc"@ =~= "order"@ + " = "@ + ("date"@ + "-"@ + "desc"@));
    assert("order = size-asc"@ =~= "order"@ + " = "@ + ("size"@ + "-"@ + "asc"@));
    assert("order = size-desc"@ =~= "order"@ + " = "@ + ("size"@ + "-"@ + "desc"@));
}

proof fn lemma_order_line(settings: Settings, order: Order)
    ensures
        after_line(settings, "order"@ + " = "@ + order_name(order)) == (Settings {
            slideshow_secs: settings.slideshow_secs,
            order,
        }),
{
    reveal_strlit("order");
    reveal_strlit("slideshow_secs");
    reveal_strlit("name");
    reveal_strlit("date");
    reveal_strlit("size");
    reveal_strlit("-");
    reveal_strlit("asc");
    reveal_strlit("desc");
    law_every_order_reads_back(order);
    let name = order_name(order);
    assert(name[0] == key_name(order.key)[0]);
    assert(name.last() == direction_name(order.descending).last());
    lemma_entry_line(settings, "order"@, name);
    assert("order"@.len() != "slideshow_secs"@.len());
}

/// Only the six orders have names.
pub proof fn law_only_six_orders_have_names(value: Seq<char>)
    ensures
        order_named(value) is Some <==> value == "name-asc"@ || value == "name-desc"@ || value
            == "date-asc"@ || value == "date-desc"@ || value == "size-asc"@ || value
            == "size-desc"@,
{
    reveal_strlit("name");
    reveal_strlit("date");
    reveal_strlit("size");
    reveal_strlit("-");
    reveal_strlit("asc");
    reveal_strlit("desc");
    reveal_strlit("name-asc");
    reveal_strlit("name-desc");
    reveal_strlit("date-asc");
    reveal_strlit("date-desc");
    reveal_strlit("size-asc");
    reveal_strlit("size-desc");
    assert("name-asc"@ =~= "name"@ + "-"@ + "asc"@);
    assert("name-desc"@ =~= "name"@ + "-"@ + "desc"@);
    assert("date-asc"@ =~= "date"@ + "-"@ + "asc"@);
    assert("date-desc"@ =~= "date"@ + "-"@ + "desc"@);
    assert("size-asc"@ =~= "size"@ + "-"@ + "asc"@);
    assert("size-desc"@ =~= "size"@ + "-"@ + "desc"@);
    law_every_order_reads_back(Order { key: SortKey::Name, descending: false });
    law_every_order_reads_back(Order { key: SortKey::Name, descending: true });
    law_every_order_reads_back(Order { key: SortKey::Modified, descending: false });
    law_every_order_reads_back(Order { key: SortKey::Modified, descending: true });
    law_every_order_reads_back(Order { key: SortKey::Size, descending: false });
    law_every_order_reads_back(Order { key: SortKey::Size, descending: true });
    if order_named(value) is Some {
        text::lemma_first_at(value, '-', 0);
        let at = text::first_at(value, '-', 0);
        assert(value =~= value.take(at) + "-"@ + value.skip(at + 1));
    }
}

/// A file is read line by line, from the top.
pub proof fn law_lines_are_read_from_the_top(settings: Settings, line: Seq<char>, rest: Seq<char>)
    requires
        !line.contains('\n'),
    ensures
        after_text(settings, line + seq!['\n'] + rest) == after_text(
            after_line(settings, line),
            rest,
        ),
        after_text(settings, line) == after_line(settings, line),
{
    reveal_strlit("\n");
    assert(seq!['\n'] =~= "\n"@);
    assert forall|i: int| 0 <= i < line.len() implies line[i] != '\n' by {
        assert(line.contains(line[i]));
    }
    lemma_line_first(settings, line, rest);
    text::lemma_first_at(line, '\n', 0);
    if line.len() > 0 {
        assert(line.take(line.len() as int) =~= line);
    } else {
        assert(text::trimmed(line, Trim::Space).len() == 0);
    }
}

/// A line that starts with a hash is a remark: it sets nothing, whatever it says.
pub proof fn law_a_remark_sets_nothing(settings: Settings, rest: Seq<char>)
    ensures
        after_line(settings, seq!['#'] + rest) == settings,
{
    let line = seq!['#'] + rest;
    assert(text::trimmed_front(line, Trim::Space) == line);
    lemma_front_stays(line);
}

/// Where nothing is set, a slideshow holds each image for four seconds and a folder is sorted by
/// name, upwards.
pub proof fn law_the_defaults_hold_until_changed(text: Seq<char>)
    requires
        !text.contains('='),
    ensures
        after_text(defaults(), text) == (Settings {
            slideshow_secs: 4,
            order: Order { key: SortKey::Name, descending: false },
        }),
{
    lemma_nothing_set(defaults(), text);
}

proof fn lemma_nothing_set(settings: Settings, text: Seq<char>)
    requires
        !text.contains('='),
    ensures
        after_text(settings, text) == settings,
    decreases text.len(),
{
    if text.len() > 0 {
        let end = text::first_at(text, '\n', 0);
        text::lemma_first_at(text, '\n', 0);
        let line = text.take(end);
        assert forall|i: int| 0 <= i < line.len() implies line[i] != '=' by {
            assert(text.contains(text[i]));
        }
        lemma_trimming_adds_nothing(line, '=');
        lemma_trimming_adds_nothing(text::trimmed_front(line, Trim::Space), '=');
        let core = text::trimmed(line, Trim::Space);
        text::lemma_first_at(core, '=', 0);
        if text::first_at(core, '=', 0) < core.len() {
            assert(core.contains(core[text::first_at(core, '=', 0)]));
        }
        if end < text.len() {
            let rest = text.skip(end + 1);
            assert forall|i: int| 0 <= i < rest.len() implies rest[i] != '=' by {
                assert(text.contains(text[end + 1 + i]));
            }
            lemma_nothing_set(settings, rest);
        }
    }
}

} // verus!
