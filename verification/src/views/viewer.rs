//! The canvas: the slideshow's progress line, the chevrons, and the hint over a drop.

use vstd::prelude::*;

verus! {

/// Most segments the slideshow's progress line is ever cut into.
pub const PROGRESS_MAX_SEGMENTS: u32 = 24;

/// How many segments a hold is drawn as.
pub open spec fn segments(seconds: u32) -> u32 {
    if seconds < 1 {
        1
    } else if seconds > PROGRESS_MAX_SEGMENTS {
        PROGRESS_MAX_SEGMENTS
    } else {
        seconds
    }
}

/// One segment per second, at least one, and no more than can be told apart.
pub fn slideshow_segments(seconds: u32) -> (count: u32)
    ensures
        count == segments(seconds),
{
    if seconds < 1 {
        1
    } else if seconds > PROGRESS_MAX_SEGMENTS {
        PROGRESS_MAX_SEGMENTS
    } else {
        seconds
    }
}

/// How long a slide is held, in milliseconds: never under a second.
pub open spec fn hold(seconds: u32) -> int {
    if seconds < 1 {
        1000
    } else {
        seconds * 1000
    }
}

/// How much of a hold is over, in milliseconds, when the next slide is due.
pub open spec fn held(seconds: u32, due: u64, now: u64) -> int {
    if now >= due {
        hold(seconds)
    } else if due - now >= hold(seconds) {
        0
    } else {
        hold(seconds) - (due - now)
    }
}

/// How many segments are lit: as large a part of the line as of the hold is over, rounded
/// down.
pub open spec fn lit(seconds: u32, due: u64, now: u64) -> int {
    segments(seconds) * held(seconds, due, now) / hold(seconds)
}

/// How many segments of the progress line are lit, `now` being before or after the next
/// slide is due.
pub fn lit_segments(seconds: u32, due: u64, now: u64) -> (count: u32)
    ensures
        count == lit(seconds, due, now),
{
    let hold: u64 = if seconds < 1 {
        1000
    } else {
        seconds as u64 * 1000
    };
    let held: u64 = if now >= due {
        hold
    } else if due - now >= hold {
        0
    } else {
        hold - (due - now)
    };
    let total: u64 = slideshow_segments(seconds) as u64;
    proof {
        law_the_line_fills_up(seconds, due, now, now);
        assert(0 <= total * held <= 24 * 0x3e8_0000_0000) by (nonlinear_arith)
            requires
                total <= 24,
                held <= 0x3e8_0000_0000,
        ;
    }
    (total * held / hold) as u32
}

/// The progress line fills up from nothing to its end, and never empties while a slide is
/// held.
pub proof fn law_the_line_fills_up(seconds: u32, due: u64, now: u64, later: u64)
    requires
        now <= later,
    ensures
        0 <= lit(seconds, due, now) <= lit(seconds, due, later) <= segments(seconds),
        due - now >= hold(seconds) ==> lit(seconds, due, now) == 0,
        now >= due ==> lit(seconds, due, now) == segments(seconds),
{
    let total = segments(seconds) as int;
    let whole = hold(seconds);
    let before = held(seconds, due, now);
    let after = held(seconds, due, later);
    assert(0 <= total * before <= total * after <= total * whole) by (nonlinear_arith)
        requires
            0 <= before <= after <= whole,
            0 <= total,
    ;
    vstd::arithmetic::div_mod::lemma_div_pos_is_pos(total * before, whole);
    vstd::arithmetic::div_mod::lemma_div_is_ordered(total * before, total * after, whole);
    vstd::arithmetic::div_mod::lemma_div_is_ordered(total * after, total * whole, whole);
    vstd::arithmetic::div_mod::lemma_div_by_multiple(total, whole);
    if before == 0 {
        assert(total * before == 0) by (nonlinear_arith)
            requires
                before == 0,
        ;
    }
}

/// The line always has a segment and never more than fit, and a longer hold never has
/// fewer.
pub proof fn law_the_line_stays_readable(seconds: u32, longer: u32)
    requires
        seconds <= longer,
    ensures
        1 <= segments(seconds) <= PROGRESS_MAX_SEGMENTS,
        segments(seconds) <= segments(longer),
{
}

/// Which way a chevron on the canvas goes.
#[derive(Debug, Clone, Copy, PartialEq, Eq, Structural)]
pub enum Step {
    Prev,
    Next,
}

/// Whether the chevrons are drawn: while the chrome is up, and while the pointer rests
/// on one.
pub fn chevrons_shown(chrome: bool, held_open: bool) -> (shown: bool)
    ensures
        shown == (chrome || held_open),
{
    chrome || held_open
}

/// Which way to step when chevrons were clicked: the later one drawn has the last word.
pub fn chevron_step(prev_clicked: bool, next_clicked: bool) -> (step: Option<Step>)
    ensures
        step == (if next_clicked {
            Some(Step::Next)
        } else if prev_clicked {
            Some(Step::Prev)
        } else {
            None
        }),
{
    if next_clicked {
        Some(Step::Next)
    } else if prev_clicked {
        Some(Step::Prev)
    } else {
        None
    }
}

/// What is said over the canvas while a file hangs over the window.
pub fn drop_text(name: Option<&str>) -> (words: String)
    ensures
        words@ == (match name {
            Some(name) => "Drop to open "@ + name@,
            None => "Drop to open"@,
        }),
{
    match name {
        Some(name) => {
            let mut words = "Drop to open ".to_owned();
            words.append(name);
            words
        },
        None => "Drop to open".to_owned(),
    }
}

/// The line is lit as far as the time has run: the share of its segments is the share of the
/// time that is over, in whole segments.
pub proof fn law_the_line_is_lit_as_far_as_the_time_has_run(
    seconds: u32,
    due: u64,
    now: u64,
    gone: int,
)
    requires
        1 <= seconds,
        0 <= gone < seconds * 1000,
        due - now == seconds * 1000 - gone,
    ensures
        lit(seconds, due, now) * (seconds * 1000) <= segments(seconds) * gone < (lit(
            seconds,
            due,
            now,
        ) + 1) * (seconds * 1000),
        1 <= seconds <= 24 ==> segments(seconds) == seconds,
        seconds > 24 ==> segments(seconds) == 24,
        1 <= seconds <= 24 ==> lit(seconds, due, now) == gone / 1000,
{
    let whole = seconds * 1000;
    let count = segments(seconds) as int;
    let share = count * gone;
    assert(hold(seconds) == whole && held(seconds, due, now) == gone);
    vstd::arithmetic::div_mod::lemma_fundamental_div_mod(share, whole);
    vstd::arithmetic::div_mod::lemma_mod_bound(share, whole);
    let lit = share / whole;
    assert(whole * lit == lit * whole) by (nonlinear_arith);
    assert((lit + 1) * whole == lit * whole + whole) by (nonlinear_arith);
    if 1 <= seconds <= 24 {
        assert(share == seconds * gone);
        let full = gone / 1000;
        let rest = gone % 1000;
        assert(seconds * gone == (seconds * 1000) * full + seconds * rest) by (nonlinear_arith)
            requires
                gone == 1000 * full + rest,
        ;
        assert(0 <= seconds * rest < seconds * 1000) by (nonlinear_arith)
            requires
                0 <= rest < 1000,
                seconds >= 1,
        ;
        vstd::arithmetic::div_mod::lemma_fundamental_div_mod_converse(
            share,
            whole,
            full,
            seconds * rest,
        );
    }
}

} // verus!
