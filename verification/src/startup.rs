//! What is measured of a launch and of moving about, when asked for.

use vstd::prelude::*;
use crate::path;
use crate::text;

verus! {

/// Whether a variable switches something on: it is set, to something, and not to zero.
pub open spec fn raised(value: Option<&str>) -> bool {
    match value {
        Some(value) => value@ != "0"@ && value@.len() > 0,
        None => false,
    }
}

/// Whether a variable is set to anything but zero.
pub open spec fn not_zero(value: Option<&str>) -> bool {
    match value {
        Some(value) => value@ != "0"@,
        None => false,
    }
}

fn is_word(value: &str, word: &str) -> (same: bool)
    ensures
        same == (value@ == word@),
{
    text::same_text(text::chars_of(value).as_slice(), word)
}

pub fn is_not_zero(value: Option<&str>) -> (on: bool)
    ensures
        on == not_zero(value),
{
    match value {
        Some(value) => !is_word(value, "0"),
        None => false,
    }
}

pub fn flag(value: Option<&str>) -> (on: bool)
    ensures
        on == raised(value),
{
    match value {
        Some(value) => !is_word(value, "0") && !value.is_empty(),
        None => false,
    }
}

/// Whether a variable is set to an explicit "off". Unset is not, so the default stays on.
pub fn flag_disabled(value: Option<&str>) -> (off: bool)
    ensures
        off == (match value {
            Some(value) => value@ == "0"@ || value@ == "false"@,
            None => false,
        }),
{
    match value {
        Some(value) => is_word(value, "0") || is_word(value, "false"),
        None => false,
    }
}

/// What is reported of a launch.
#[derive(Debug)]
pub struct StartupTrace {
    pub trace_enabled: bool,
    pub exit_after_first_frame: bool,
    pub first_frame_reported: bool,
    pub first_image_reported: bool,
}

/// The line for a milestone, after some time in words.
pub open spec fn startup_line(milestone: Seq<char>, elapsed: Seq<char>) -> Seq<char> {
    "startup: "@ + milestone + " "@ + elapsed + "ms"@
}

/// A line, if it is there, says this.
pub open spec fn says(line: Option<String>, words: Option<Seq<char>>) -> bool {
    match (line, words) {
        (Some(line), Some(words)) => line@ == words,
        (None, None) => true,
        _ => false,
    }
}

impl StartupTrace {
    pub open spec fn reported(&self, milestone: Seq<char>, elapsed: Seq<char>) -> Option<
        Seq<char>,
    > {
        if self.trace_enabled {
            Some(startup_line(milestone, elapsed))
        } else {
            None
        }
    }

    /// From the variables that ask for a report, and for the end after the first frame.
    pub fn new(trace: Option<&str>, exit: Option<&str>) -> (startup: Self)
        ensures
            startup.trace_enabled == raised(trace),
            startup.exit_after_first_frame == raised(exit),
            !startup.first_frame_reported,
            !startup.first_image_reported,
    {
        StartupTrace {
            trace_enabled: flag(trace),
            exit_after_first_frame: flag(exit),
            first_frame_reported: false,
            first_image_reported: false,
        }
    }

    pub fn should_exit_after_first_frame(&self) -> (exit: bool)
        ensures
            exit == self.exit_after_first_frame,
    {
        self.exit_after_first_frame
    }

    /// The report of a milestone.
    pub fn mark(&self, milestone: &str, elapsed: &str) -> (line: Option<String>)
        ensures
            says(line, self.reported(milestone@, elapsed@)),
    {
        if !self.trace_enabled {
            return None;
        }
        let mut line = "startup: ".to_owned();
        line.append(milestone);
        line.append(" ");
        line.append(elapsed);
        line.append("ms");
        Some(line)
    }

    /// Asked for at every frame; reports the first.
    pub fn mark_first_frame(&mut self, elapsed: &str) -> (line: Option<String>)
        ensures
            *final(self) == old(self).marked(Mark::Frame(elapsed@)),
            says(line, old(self).line_for(Mark::Frame(elapsed@))),
    {
        if self.first_frame_reported {
            return None;
        }
        self.first_frame_reported = true;
        self.mark("first_frame", elapsed)
    }

    /// Asked for whenever pixels of an image reach the screen; reports the first.
    pub fn mark_first_image(&mut self, elapsed: &str) -> (line: Option<String>)
        ensures
            *final(self) == old(self).marked(Mark::Image(elapsed@)),
            says(line, old(self).line_for(Mark::Image(elapsed@))),
    {
        if self.first_image_reported {
            return None;
        }
        self.first_image_reported = true;
        self.mark("first_image", elapsed)
    }
}

/// What is marked while a window runs, and after how long in words.
pub enum Mark {
    Frame(Seq<char>),
    Image(Seq<char>),
}

impl StartupTrace {
    /// How a trace stands once something has been marked.
    pub open spec fn marked(self, mark: Mark) -> StartupTrace {
        match mark {
            Mark::Frame(_) => StartupTrace { first_frame_reported: true, ..self },
            Mark::Image(_) => StartupTrace { first_image_reported: true, ..self },
        }
    }

    /// What is reported of something that is marked.
    pub open spec fn line_for(self, mark: Mark) -> Option<Seq<char>> {
        match mark {
            Mark::Frame(elapsed) => if self.first_frame_reported {
                None
            } else {
                self.reported("first_frame"@, elapsed)
            },
            Mark::Image(elapsed) => if self.first_image_reported {
                None
            } else {
                self.reported("first_image"@, elapsed)
            },
        }
    }

    /// How a trace stands after a number of marks.
    pub open spec fn after(self, marks: Seq<Mark>) -> StartupTrace
        decreases marks.len(),
    {
        if marks.len() == 0 {
            self
        } else {
            self.after(marks.drop_last()).marked(marks.last())
        }
    }

    /// What is reported of the mark at a place in a row of them.
    pub open spec fn line_at(self, marks: Seq<Mark>, n: int) -> Option<Seq<char>> {
        self.after(marks.take(n)).line_for(marks[n])
    }
}

/// Whether a mark is for a frame.
pub open spec fn is_frame(mark: Mark) -> bool {
    mark is Frame
}

/// What is reported holds of what has been marked before: a kind that has been is done with,
/// and whether anything is reported at all does not change.
proof fn lemma_after(trace: StartupTrace, marks: Seq<Mark>)
    ensures
        trace.after(marks).trace_enabled == trace.trace_enabled,
        trace.after(marks).first_frame_reported == (trace.first_frame_reported || exists|i: int|
            0 <= i < marks.len() && is_frame(#[trigger] marks[i])),
        trace.after(marks).first_image_reported == (trace.first_image_reported || exists|i: int|
            0 <= i < marks.len() && !is_frame(#[trigger] marks[i])),
    decreases marks.len(),
{
    if marks.len() > 0 {
        let before = marks.drop_last();
        lemma_after(trace, before);
        assert(forall|i: int| 0 <= i < before.len() ==> before[i] == marks[i]);
        assert(is_frame(marks[marks.len() - 1]) == is_frame(marks.last()));
        if exists|i: int| 0 <= i < marks.len() && is_frame(#[trigger] marks[i]) {
            let i = choose|i: int| 0 <= i < marks.len() && is_frame(#[trigger] marks[i]);
            if i < before.len() {
                assert(is_frame(before[i]));
            }
        }
        if exists|i: int| 0 <= i < marks.len() && !is_frame(#[trigger] marks[i]) {
            let i = choose|i: int| 0 <= i < marks.len() && !is_frame(#[trigger] marks[i]);
            if i < before.len() {
                assert(!is_frame(before[i]));
            }
        }
    }
}

/// However often frames and images are marked, and in whatever order, the first frame is
/// reported by its own mark and if a report was asked for, and no later frame is.
pub proof fn law_the_first_frame_is_reported_once(trace: StartupTrace, marks: Seq<Mark>, n: int)
    requires
        !trace.first_frame_reported,
        0 <= n < marks.len(),
        marks[n] is Frame,
    ensures
        trace.line_at(marks, n) == (if trace.trace_enabled && forall|i: int|
            0 <= i < n ==> !is_frame(#[trigger] marks[i]) {
            Some(startup_line("first_frame"@, marks[n]->Frame_0))
        } else {
            None
        }),
{
    lemma_after(trace, marks.take(n));
    let before = marks.take(n);
    assert(forall|i: int| 0 <= i < n ==> before[i] == marks[i]);
    if exists|i: int| 0 <= i < n && is_frame(#[trigger] marks[i]) {
        let i = choose|i: int| 0 <= i < n && is_frame(#[trigger] marks[i]);
        assert(is_frame(before[i]));
    }
}

/// The same of the first image.
pub proof fn law_the_first_image_is_reported_once(trace: StartupTrace, marks: Seq<Mark>, n: int)
    requires
        !trace.first_image_reported,
        0 <= n < marks.len(),
        marks[n] is Image,
    ensures
        trace.line_at(marks, n) == (if trace.trace_enabled && forall|i: int|
            0 <= i < n ==> is_frame(#[trigger] marks[i]) {
            Some(startup_line("first_image"@, marks[n]->Image_0))
        } else {
            None
        }),
{
    lemma_after(trace, marks.take(n));
    let before = marks.take(n);
    assert(forall|i: int| 0 <= i < n ==> before[i] == marks[i]);
    if exists|i: int| 0 <= i < n && !is_frame(#[trigger] marks[i]) {
        let i = choose|i: int| 0 <= i < n && !is_frame(#[trigger] marks[i]);
        assert(!is_frame(before[i]));
    }
}

/// What is reported of each image shown.
#[derive(Debug)]
pub struct NavTrace {
    pub enabled: bool,
    pub from_cache: bool,
}

/// The line for an image, after some time in words.
pub open spec fn nav_line(name: Seq<char>, from_cache: bool, elapsed: Seq<char>) -> Seq<char> {
    "nav: "@ + name + (if from_cache {
        " cached "@
    } else {
        " decoded "@
    }) + elapsed + "ms"@
}

impl NavTrace {
    pub open spec fn reported(&self, path: Option<&str>, elapsed: Seq<char>) -> Option<Seq<char>> {
        let name = match path {
            Some(path) => path::name_of(path@),
            None => None,
        };
        match name {
            Some(name) => if self.enabled {
                Some(nav_line(name, self.from_cache, elapsed))
            } else {
                None
            },
            None => None,
        }
    }

    pub fn new(value: Option<&str>) -> (trace: Self)
        ensures
            trace.enabled == not_zero(value),
            !trace.from_cache,
    {
        NavTrace { enabled: is_not_zero(value), from_cache: false }
    }

    /// An image has been asked for.
    pub fn asked(&mut self, from_cache: bool)
        ensures
            *final(self) == (NavTrace { from_cache, ..*old(self) }),
    {
        self.from_cache = from_cache;
    }

    /// Full pixels are on screen. There is nothing to report of an image without a path,
    /// which was not moved to.
    pub fn arrived(&self, path: Option<&str>, elapsed: &str) -> (line: Option<String>)
        ensures
            says(line, self.reported(path, elapsed@)),
    {
        if !self.enabled {
            return None;
        }
        let name = match path {
            Some(path) => path::file_name(path),
            None => None,
        };
        match name {
            Some(name) => {
                let mut line = "nav: ".to_owned();
                line.append(name.as_str());
                line.append(
                    if self.from_cache {
                        " cached "
                    } else {
                        " decoded "
                    },
                );
                line.append(elapsed);
                line.append("ms");
                Some(line)
            },
            None => None,
        }
    }
}

/// What is measured is told with its milestone first and its time last, in milliseconds, and what
/// was moved to says whether it was on hand or had to be decoded.
pub proof fn law_a_time_is_told_in_milliseconds(name: Seq<char>, elapsed: Seq<char>)
    ensures
        startup_line(name, elapsed) == "startup: "@ + name + seq![' '] + elapsed + seq!['m', 's'],
        nav_line(name, true, elapsed) == "nav: "@ + name + " cached "@ + elapsed + seq!['m', 's'],
        nav_line(name, false, elapsed) == "nav: "@ + name + " decoded "@ + elapsed + seq![
            'm',
            's',
        ],
{
    reveal_strlit(" ");
    reveal_strlit("ms");
    assert(seq!['m', 's'] =~= "ms"@);
    assert(seq![' '] =~= " "@);
}

/// A trace is off unless it is asked for, and a zero asks for nothing.
pub proof fn law_a_zero_asks_for_nothing(value: &str)
    ensures
        !raised(None) && !not_zero(None),
        value@ == "0"@ ==> !raised(Some(value)) && !not_zero(Some(value)),
        value@.len() == 0 ==> !raised(Some(value)),
        value@.len() > 0 && value@ != "0"@ ==> raised(Some(value)) && not_zero(Some(value)),
{
}

/// Moving about is only told where it is asked for, and only of a file with a name.
pub proof fn law_moves_are_told_where_asked_for(trace: NavTrace, path: &str, elapsed: Seq<char>)
    ensures
        !trace.enabled ==> trace.reported(Some(path), elapsed) is None,
        trace.reported(None, elapsed) is None,
        trace.enabled ==> (path::name_of(path@) matches Some(name) ==> trace.reported(
            Some(path),
            elapsed,
        ) == Some(nav_line(name, trace.from_cache, elapsed))),
        path::name_of(path@) is None ==> trace.reported(Some(path), elapsed) is None,
{
}

} // verus!
